//! What a block fingerprint does not see: the order of attributes, of
//! arguments with distinct names and of object entries with distinct
//! keys, the sign of zero and the payload of NaN, and the line breaks and
//! surrounding whitespace of embedded code; and that it is built from
//! the encodings of the children alone; that its hexadecimal text reads
//! back as the same fingerprint; and what it does see: scalar values,
//! which encode injectively.
use vstd::prelude::*;

use crate::fingerprint::{
    arg_order, attr_order, enc_argument, enc_arguments, enc_block, enc_call, enc_child, enc_children,
    enc_content, enc_literal, enc_rvalue, enc_str, u64_le,
    fingerprint_input, keyed_entries, key_order, normalize_embedded_code, normalize_f64_bits,
    spec_fingerprint, all_hex, hex_char, hex_decode, hex_string, hex_value,
};
use vstd::utf8::{encode_utf8, is_ascii_chars, is_ascii_chars_encode_utf8};
use crate::format::{ArgumentV, AttributeV, CallV, ChildContentV, ChildV, LiteralV, RValueV};
use crate::sorting::{
    insert_sorted, isort, lemma_isort_permutation, lemma_map_values_multiset, lemma_seq_lt_irreflexive,
    lemma_seq_lt_total, lemma_seq_lt_transitive, seq_lt, strict_order, total_on,
};

verus! {

proof fn lemma_attr_order()
    ensures
        strict_order(attr_order()),
        forall|s: Seq<AttributeV>| total_on(attr_order(), s),
{
    assert forall|a: AttributeV| !#[trigger] (attr_order())(a, a) by {
        lemma_seq_lt_irreflexive(a.keyword);
        if let Some(c) = a.condition {
            lemma_seq_lt_irreflexive(c);
        }
    }
    assert forall|a: AttributeV, b: AttributeV, c: AttributeV|
        #[trigger] (attr_order())(a, b) && #[trigger] (attr_order())(b, c) implies (attr_order())(
        a,
        c,
    ) by {
        if seq_lt(a.keyword, b.keyword) && seq_lt(b.keyword, c.keyword) {
            lemma_seq_lt_transitive(a.keyword, b.keyword, c.keyword);
        }
        if a.keyword == b.keyword && b.keyword == c.keyword {
            if let (Some(x), Some(y), Some(z)) = (a.condition, b.condition, c.condition) {
                if seq_lt(x, y) && seq_lt(y, z) {
                    lemma_seq_lt_transitive(x, y, z);
                }
            }
        }
    }
    assert forall|s: Seq<AttributeV>| total_on(attr_order(), s) by {
        assert forall|i: int, j: int|
            0 <= i < s.len() && 0 <= j < s.len() && s[i] != s[j] implies (attr_order())(
            #[trigger] s[i],
            #[trigger] s[j],
        ) || (attr_order())(s[j], s[i]) by {
            let (a, b) = (s[i], s[j]);
            if a.keyword != b.keyword {
                lemma_seq_lt_total(a.keyword, b.keyword);
            } else if let (Some(x), Some(y)) = (a.condition, b.condition) {
                lemma_seq_lt_total(x, y);
            }
        }
    }
}

proof fn lemma_arg_order(s: Seq<ArgumentV>)
    requires
        forall|i: int, j: int|
            0 <= i < j < s.len() ==> (#[trigger] s[i]).name != (#[trigger] s[j]).name,
    ensures
        strict_order(arg_order()),
        total_on(arg_order(), s),
{
    assert forall|a: ArgumentV| !#[trigger] (arg_order())(a, a) by {
        lemma_seq_lt_irreflexive(a.name);
    }
    assert forall|a: ArgumentV, b: ArgumentV, c: ArgumentV|
        #[trigger] (arg_order())(a, b) && #[trigger] (arg_order())(b, c) implies (arg_order())(
        a,
        c,
    ) by {
        lemma_seq_lt_transitive(a.name, b.name, c.name);
    }
    assert forall|i: int, j: int|
        0 <= i < s.len() && 0 <= j < s.len() && s[i] != s[j] implies (arg_order())(
        #[trigger] s[i],
        #[trigger] s[j],
    ) || (arg_order())(s[j], s[i]) by {
        if i < j {
            lemma_seq_lt_total(s[i].name, s[j].name);
        } else if j < i {
            lemma_seq_lt_total(s[j].name, s[i].name);
        }
    }
}

/// The attributes of a line are hashed in sorted order, so their order
/// does not change the encoding of the line.
pub proof fn law_child_ignores_attribute_order(c1: ChildV, c2: ChildV)
    requires
        c1.content == c2.content,
        c1.attributes.to_multiset() == c2.attributes.to_multiset(),
    ensures
        enc_child(c1) == enc_child(c2),
{
    lemma_attr_order();
    lemma_isort_permutation(c1.attributes, c2.attributes, attr_order());
}

/// The arguments of a command or system call with distinct names are
/// hashed by name, so their order does not change the encoding.
pub proof fn law_call_ignores_argument_order(c1: CallV, c2: CallV)
    requires
        c1.command == c2.command,
        c1.arguments.to_multiset() == c2.arguments.to_multiset(),
        forall|i: int, j: int|
            0 <= i < j < c1.arguments.len() ==> (#[trigger] c1.arguments[i]).name != (
            #[trigger] c1.arguments[j]).name,
    ensures
        enc_call(c1) == enc_call(c2),
{
    lemma_arg_order(c1.arguments);
    lemma_isort_permutation(c1.arguments, c2.arguments, arg_order());
}

proof fn lemma_keyed_entries_multiset(
    e1: Seq<(Seq<char>, LiteralV)>,
    e2: Seq<(Seq<char>, LiteralV)>,
)
    requires
        e1.to_multiset() == e2.to_multiset(),
        forall|i: int, j: int|
            0 <= i < j < e1.len() ==> (#[trigger] e1[i]).0 != (#[trigger] e1[j]).0,
    ensures
        strict_order(key_order()),
        total_on(key_order(), keyed_entries(e1)),
        keyed_entries(e1).to_multiset() == keyed_entries(e2).to_multiset(),
{
    broadcast use vstd::seq_lib::group_to_multiset_ensures;

    let f = |p: (Seq<char>, LiteralV)|
        (p.0, crate::fingerprint::enc_str(p.0) + enc_literal(p.1));
    assert(keyed_entries(e1) =~= e1.map_values(f));
    assert(keyed_entries(e2) =~= e2.map_values(f));
    lemma_map_values_multiset(e1, e2, f);
    let k1 = keyed_entries(e1);
    assert forall|a: (Seq<char>, Seq<u8>)| !#[trigger] (key_order())(a, a) by {
        lemma_seq_lt_irreflexive(a.0);
    }
    assert forall|a: (Seq<char>, Seq<u8>), b: (Seq<char>, Seq<u8>), c: (Seq<char>, Seq<u8>)|
        #[trigger] (key_order())(a, b) && #[trigger] (key_order())(b, c) implies (key_order())(
        a,
        c,
    ) by {
        lemma_seq_lt_transitive(a.0, b.0, c.0);
    }
    assert forall|i: int, j: int|
        0 <= i < k1.len() && 0 <= j < k1.len() && k1[i] != k1[j] implies (key_order())(
        #[trigger] k1[i],
        #[trigger] k1[j],
    ) || (key_order())(k1[j], k1[i]) by {
        if i < j {
            assert(e1[i].0 != e1[j].0);
            lemma_seq_lt_total(k1[i].0, k1[j].0);
        } else if j < i {
            assert(e1[j].0 != e1[i].0);
            lemma_seq_lt_total(k1[j].0, k1[i].0);
        }
    }
}

/// The entries of an object with distinct keys are hashed by key, so
/// their order does not change the encoding of the object.
pub proof fn law_object_ignores_entry_order(
    e1: Seq<(Seq<char>, LiteralV)>,
    e2: Seq<(Seq<char>, LiteralV)>,
)
    requires
        e1.to_multiset() == e2.to_multiset(),
        forall|i: int, j: int|
            0 <= i < j < e1.len() ==> (#[trigger] e1[i]).0 != (#[trigger] e1[j]).0,
    ensures
        enc_literal(LiteralV::Object(e1)) == enc_literal(LiteralV::Object(e2)),
{
    lemma_keyed_entries_multiset(e1, e2);
    lemma_isort_permutation(keyed_entries(e1), keyed_entries(e2), key_order());
}

/// `-0.0` is hashed as `0.0`, and every NaN alike.
pub proof fn law_float_normalization(a: u64, b: u64)
    requires
        normalize_f64_bits(a) == normalize_f64_bits(b),
    ensures
        enc_literal(LiteralV::Float(a)) == enc_literal(LiteralV::Float(b)),
{
}

/// The two zeros, and any two NaNs, have the same normalized bits.
pub proof fn law_signed_zero_and_nan_bits(a: u64, b: u64)
    requires
        (a == 0 || a == 0x8000_0000_0000_0000u64) && (b == 0 || b == 0x8000_0000_0000_0000u64)
            || (a & 0x7ff0_0000_0000_0000 == 0x7ff0_0000_0000_0000 && a & 0x000f_ffff_ffff_ffff != 0
            && b & 0x7ff0_0000_0000_0000 == 0x7ff0_0000_0000_0000 && b & 0x000f_ffff_ffff_ffff
            != 0),
    ensures
        normalize_f64_bits(a) == normalize_f64_bits(b),
{
    assert(0x8000_0000_0000_0000u64 & 0x7fff_ffff_ffff_ffff == 0) by (bit_vector);
    assert(0u64 & 0x7fff_ffff_ffff_ffff == 0) by (bit_vector);
    assert(a & 0x7ff0_0000_0000_0000 == 0x7ff0_0000_0000_0000 && a & 0x000f_ffff_ffff_ffff != 0
        ==> a & 0x7fff_ffff_ffff_ffff != 0) by (bit_vector);
    assert(b & 0x7ff0_0000_0000_0000 == 0x7ff0_0000_0000_0000 && b & 0x000f_ffff_ffff_ffff != 0
        ==> b & 0x7fff_ffff_ffff_ffff != 0) by (bit_vector);
}

/// Embedded code is hashed after its line breaks are made `\n` and it
/// is trimmed.
pub proof fn law_embedded_code_normalization(a: Seq<char>, b: Seq<char>)
    requires
        normalize_embedded_code(a) == normalize_embedded_code(b),
    ensures
        enc_content(ChildContentV::EmbeddedCode(a)) == enc_content(ChildContentV::EmbeddedCode(b)),
{
}

/// A block is hashed through the encodings of its children in order:
/// blocks whose children encode alike have the same fingerprint.
pub proof fn law_fingerprint_from_children(b1: Seq<ChildV>, b2: Seq<ChildV>)
    requires
        b1.len() == b2.len(),
        forall|i: int| 0 <= i < b1.len() ==> enc_child(#[trigger] b1[i]) == enc_child(b2[i]),
    ensures
        enc_block(b1) == enc_block(b2),
        spec_fingerprint(b1) == spec_fingerprint(b2),
    decreases b1.len(),
{
    lemma_children_encode_alike(b1, b2);
}

proof fn lemma_children_encode_alike(b1: Seq<ChildV>, b2: Seq<ChildV>)
    requires
        b1.len() == b2.len(),
        forall|i: int| 0 <= i < b1.len() ==> enc_child(#[trigger] b1[i]) == enc_child(b2[i]),
    ensures
        enc_children(b1) == enc_children(b2),
    decreases b1.len(),
{
    if b1.len() > 0 {
        let (p1, p2) = (b1.drop_last(), b2.drop_last());
        assert forall|i: int| 0 <= i < p1.len() implies enc_child(#[trigger] p1[i]) == enc_child(
            p2[i],
        ) by {
            assert(p1[i] == b1[i] && p2[i] == b2[i]);
        }
        lemma_children_encode_alike(p1, p2);
        assert(enc_child(b1[b1.len() - 1]) == enc_child(b2[b2.len() - 1]));
    }
}

/// A nested block is hashed through its fingerprint input alone.
pub proof fn law_nested_block_congruence(b1: Seq<ChildV>, b2: Seq<ChildV>)
    requires
        enc_block(b1) == enc_block(b2),
    ensures
        enc_content(ChildContentV::Block(b1)) == enc_content(ChildContentV::Block(b2)),
        fingerprint_input(b1) == fingerprint_input(b2),
{
}


// ---------------------------------------------------------------------
// The same laws at the fingerprint of a block
// ---------------------------------------------------------------------

/// Replacing a child of a block by one that encodes alike keeps the
/// block's fingerprint.
pub proof fn law_block_replace_child(b: Seq<ChildV>, k: int, c: ChildV)
    requires
        0 <= k < b.len(),
        enc_child(b[k]) == enc_child(c),
    ensures
        spec_fingerprint(b) == spec_fingerprint(b.update(k, c)),
{
    let b2 = b.update(k, c);
    assert forall|i: int| 0 <= i < b.len() implies enc_child(#[trigger] b[i]) == enc_child(b2[i]) by {}
    law_fingerprint_from_children(b, b2);
}

/// The fingerprint of a block does not see the order of the attributes
/// of its lines.
pub proof fn law_block_ignores_attribute_order(b: Seq<ChildV>, k: int, attributes: Seq<AttributeV>)
    requires
        0 <= k < b.len(),
        attributes.to_multiset() == b[k].attributes.to_multiset(),
    ensures
        spec_fingerprint(b) == spec_fingerprint(
            b.update(k, ChildV { attributes, content: b[k].content }),
        ),
{
    let c = ChildV { attributes, content: b[k].content };
    law_child_ignores_attribute_order(b[k], c);
    law_block_replace_child(b, k, c);
}

/// The line of a block that is a command or system call with this call.
pub open spec fn with_call(c: ChildV, call: CallV) -> ChildV {
    ChildV {
        attributes: c.attributes,
        content: match c.content {
            ChildContentV::SystemCallLine(_) => ChildContentV::SystemCallLine(call),
            _ => ChildContentV::CommandLine(call),
        },
    }
}

/// The call of a line that is a command or a system call.
pub open spec fn call_of(c: ChildV) -> Option<CallV> {
    match c.content {
        ChildContentV::CommandLine(x) => Some(x),
        ChildContentV::SystemCallLine(x) => Some(x),
        _ => None,
    }
}

pub open spec fn distinct_names(args: Seq<ArgumentV>) -> bool {
    forall|i: int, j: int| 0 <= i < j < args.len() ==> (#[trigger] args[i]).name != (#[trigger] args[j]).name
}

proof fn lemma_with_call(c: ChildV, call: CallV)
    requires
        call_of(c) matches Some(x) && enc_call(x) == enc_call(call),
    ensures
        enc_child(c) == enc_child(with_call(c, call)),
{
}

/// The fingerprint of a block does not see the order of the arguments,
/// with distinct names, of its commands and system calls.
pub proof fn law_block_ignores_argument_order(b: Seq<ChildV>, k: int, arguments: Seq<ArgumentV>)
    requires
        0 <= k < b.len(),
        call_of(b[k]) is Some,
        arguments.to_multiset() == call_of(b[k])->0.arguments.to_multiset(),
        distinct_names(call_of(b[k])->0.arguments),
    ensures
        spec_fingerprint(b) == spec_fingerprint(
            b.update(k, with_call(b[k], CallV { arguments, ..call_of(b[k])->0 })),
        ),
{
    let x = call_of(b[k])->0;
    let y = CallV { arguments, ..x };
    law_call_ignores_argument_order(x, y);
    lemma_with_call(b[k], y);
    law_block_replace_child(b, k, with_call(b[k], y));
}

/// The fingerprint of a block sees the embedded code of its lines only
/// with its line breaks made `\n` and trimmed.
pub proof fn law_block_embedded_code_normalization(b: Seq<ChildV>, k: int, code: Seq<char>)
    requires
        0 <= k < b.len(),
        b[k].content matches ChildContentV::EmbeddedCode(a) && crate::fingerprint::normalize_embedded_code(a)
            == crate::fingerprint::normalize_embedded_code(code),
    ensures
        spec_fingerprint(b) == spec_fingerprint(
            b.update(k, ChildV { attributes: b[k].attributes, content: ChildContentV::EmbeddedCode(code) }),
        ),
{
    law_block_replace_child(b, k, ChildV { attributes: b[k].attributes, content: ChildContentV::EmbeddedCode(code) });
}

/// The argument `old` made `new` wherever it stands.
pub open spec fn swap_argument(old: ArgumentV, new: ArgumentV) -> spec_fn(ArgumentV) -> ArgumentV {
    |a: ArgumentV| if a == old { new } else { a }
}

proof fn lemma_insert_sorted_map(s: Seq<ArgumentV>, x: ArgumentV, f: spec_fn(ArgumentV) -> ArgumentV)
    requires
        forall|a: ArgumentV| #[trigger] f(a).name == a.name,
    ensures
        insert_sorted(s.map_values(f), f(x), arg_order()) == insert_sorted(s, x, arg_order()).map_values(f),
    decreases s.len(),
{
    if s.len() > 0 {
        assert(s.map_values(f).drop_last() =~= s.drop_last().map_values(f));
        assert(s.map_values(f).last() == f(s.last()));
        lemma_insert_sorted_map(s.drop_last(), x, f);
        assert(insert_sorted(s, x, arg_order()).map_values(f) =~= insert_sorted(s.map_values(f), f(x), arg_order()));
    } else {
        assert(insert_sorted(s, x, arg_order()).map_values(f) =~= seq![f(x)]);
    }
}

proof fn lemma_isort_map(s: Seq<ArgumentV>, f: spec_fn(ArgumentV) -> ArgumentV)
    requires
        forall|a: ArgumentV| #[trigger] f(a).name == a.name,
    ensures
        isort(s.map_values(f), arg_order()) == isort(s, arg_order()).map_values(f),
    decreases s.len(),
{
    if s.len() > 0 {
        assert(s.map_values(f).drop_last() =~= s.drop_last().map_values(f));
        lemma_isort_map(s.drop_last(), f);
        lemma_insert_sorted_map(isort(s.drop_last(), arg_order()), s.last(), f);
    } else {
        assert(isort(s, arg_order()).map_values(f) =~= Seq::<ArgumentV>::empty());
    }
}

proof fn lemma_arguments_map(s: Seq<ArgumentV>, f: spec_fn(ArgumentV) -> ArgumentV)
    requires
        forall|a: ArgumentV| #[trigger] enc_argument(f(a)) == enc_argument(a),
    ensures
        enc_arguments(s.map_values(f)) == enc_arguments(s),
    decreases s.len(),
{
    if s.len() > 0 {
        assert(s.map_values(f).drop_last() =~= s.drop_last().map_values(f));
        lemma_arguments_map(s.drop_last(), f);
        assert(enc_argument(f(s.last())) == enc_argument(s.last()));
    }
}

/// The fingerprint of a block sees the value of an argument of one of its
/// commands or system calls (with distinct argument names) only through
/// its encoding: a value that encodes alike keeps the fingerprint. With
/// `law_float_normalization` and `law_object_ignores_entry_order`, a
/// float argument of `-0.0` or another NaN, or an object argument with
/// its entries in another order, keeps it (see the two laws below).
pub proof fn law_block_argument_value(b: Seq<ChildV>, k: int, j: int, value: RValueV)
    requires
        0 <= k < b.len(),
        call_of(b[k]) is Some,
        0 <= j < call_of(b[k])->0.arguments.len(),
        distinct_names(call_of(b[k])->0.arguments),
        enc_rvalue(call_of(b[k])->0.arguments[j].value) == enc_rvalue(value),
    ensures
        spec_fingerprint(b) == spec_fingerprint(
            b.update(
                k,
                with_call(
                    b[k],
                    CallV {
                        arguments: call_of(b[k])->0.arguments.update(
                            j,
                            ArgumentV { name: call_of(b[k])->0.arguments[j].name, value },
                        ),
                        ..call_of(b[k])->0
                    },
                ),
            ),
        ),
{
    let x = call_of(b[k])->0;
    let old = x.arguments[j];
    let new = ArgumentV { name: old.name, value };
    let f = swap_argument(old, new);
    let args2 = x.arguments.update(j, new);
    assert(x.arguments.map_values(f) =~= args2) by {
        assert forall|i: int| 0 <= i < x.arguments.len() implies #[trigger] x.arguments.map_values(f)[i] == args2[i] by {
            if i != j {
                assert(x.arguments[i].name != old.name);
            }
        }
    }
    assert forall|a: ArgumentV| #[trigger] f(a).name == a.name by {}
    assert forall|a: ArgumentV| #[trigger] enc_argument(f(a)) == enc_argument(a) by {}
    lemma_isort_map(x.arguments, f);
    let sorted = isort(x.arguments, arg_order());
    lemma_arguments_map(sorted, f);
    let y = CallV { arguments: args2, ..x };
    assert(enc_call(x) == enc_call(y));
    lemma_with_call(b[k], y);
    law_block_replace_child(b, k, with_call(b[k], y));
}

/// A float argument of `-0.0` and one of `0.0`, or two NaN arguments,
/// give a block the same fingerprint.
pub proof fn law_block_float_argument(b: Seq<ChildV>, k: int, j: int, bits: u64)
    requires
        0 <= k < b.len(),
        call_of(b[k]) is Some,
        0 <= j < call_of(b[k])->0.arguments.len(),
        distinct_names(call_of(b[k])->0.arguments),
        call_of(b[k])->0.arguments[j].value matches RValueV::Literal(LiteralV::Float(a))
            && normalize_f64_bits(a) == normalize_f64_bits(bits),
    ensures
        spec_fingerprint(b) == spec_fingerprint(
            b.update(
                k,
                with_call(
                    b[k],
                    CallV {
                        arguments: call_of(b[k])->0.arguments.update(
                            j,
                            ArgumentV {
                                name: call_of(b[k])->0.arguments[j].name,
                                value: RValueV::Literal(LiteralV::Float(bits)),
                            },
                        ),
                        ..call_of(b[k])->0
                    },
                ),
            ),
        ),
{
    let x = call_of(b[k])->0;
    if let RValueV::Literal(LiteralV::Float(a)) = x.arguments[j].value {
        law_float_normalization(a, bits);
    }
    law_block_argument_value(b, k, j, RValueV::Literal(LiteralV::Float(bits)));
}

/// An object argument holding the same entries, with distinct keys, in
/// another order gives a block the same fingerprint.
pub proof fn law_block_object_argument(
    b: Seq<ChildV>,
    k: int,
    j: int,
    entries: Seq<(Seq<char>, LiteralV)>,
)
    requires
        0 <= k < b.len(),
        call_of(b[k]) is Some,
        0 <= j < call_of(b[k])->0.arguments.len(),
        distinct_names(call_of(b[k])->0.arguments),
        call_of(b[k])->0.arguments[j].value matches RValueV::Literal(LiteralV::Object(e))
            && e.to_multiset() == entries.to_multiset() && forall|p: int, q: int|
            0 <= p < q < e.len() ==> (#[trigger] e[p]).0 != (#[trigger] e[q]).0,
    ensures
        spec_fingerprint(b) == spec_fingerprint(
            b.update(
                k,
                with_call(
                    b[k],
                    CallV {
                        arguments: call_of(b[k])->0.arguments.update(
                            j,
                            ArgumentV {
                                name: call_of(b[k])->0.arguments[j].name,
                                value: RValueV::Literal(LiteralV::Object(entries)),
                            },
                        ),
                        ..call_of(b[k])->0
                    },
                ),
            ),
        ),
{
    let x = call_of(b[k])->0;
    if let RValueV::Literal(LiteralV::Object(e)) = x.arguments[j].value {
        law_object_ignores_entry_order(e, entries);
    }
    law_block_argument_value(b, k, j, RValueV::Literal(LiteralV::Object(entries)));
}

// ---------------------------------------------------------------------
// All of these at once, at any depth
// ---------------------------------------------------------------------

pub open spec fn distinct_keys(e: Seq<(Seq<char>, LiteralV)>) -> bool {
    forall|i: int, j: int| 0 <= i < j < e.len() ==> (#[trigger] e[i]).0 != (#[trigger] e[j]).0
}

/// Two literals that a fingerprint cannot tell apart: floats with the
/// same normalized bits, arrays alike item by item, objects with distinct
/// keys whose entries, alike entry by entry, stand in another order; any
/// other two literals equal.
pub open spec fn literals_alike(l1: LiteralV, l2: LiteralV) -> bool
    decreases l1,
{
    match (l1, l2) {
        (LiteralV::Float(a), LiteralV::Float(b)) => normalize_f64_bits(a) == normalize_f64_bits(b),
        (LiteralV::Array(v1), LiteralV::Array(v2)) => v1.len() == v2.len() && forall|i: int|
            0 <= i < v1.len() ==> literals_alike(#[trigger] v1[i], v2[i]),
        (LiteralV::Object(e1), LiteralV::Object(e2)) => distinct_keys(e1) && exists|e3: Seq<(Seq<char>, LiteralV)>|
            #![trigger e3.to_multiset()]
            e3.len() == e1.len() && e3.to_multiset() == e2.to_multiset() && forall|i: int|
                0 <= i < e1.len() ==> (#[trigger] e3[i]).0 == e1[i].0 && literals_alike(e1[i].1, e3[i].1),
        _ => l1 == l2,
    }
}

pub open spec fn rvalues_alike(r1: RValueV, r2: RValueV) -> bool {
    match (r1, r2) {
        (RValueV::Literal(a), RValueV::Literal(b)) => literals_alike(a, b),
        _ => r1 == r2,
    }
}

/// Two calls of the same command whose arguments, with distinct names,
/// are alike argument by argument and stand in another order.
pub open spec fn calls_alike(x: CallV, y: CallV) -> bool {
    &&& x.command == y.command
    &&& distinct_names(x.arguments)
    &&& exists|a3: Seq<ArgumentV>|
        #![trigger a3.to_multiset()]
        a3.len() == x.arguments.len() && a3.to_multiset() == y.arguments.to_multiset() && forall|i: int|
            0 <= i < x.arguments.len() ==> (#[trigger] a3[i]).name == x.arguments[i].name
                && rvalues_alike(x.arguments[i].value, a3[i].value)
}

/// Two lines that a fingerprint cannot tell apart: their attributes in
/// another order, and their contents alike.
pub open spec fn children_alike(c1: ChildV, c2: ChildV) -> bool
    decreases c1,
{
    &&& c1.attributes.to_multiset() == c2.attributes.to_multiset()
    &&& match (c1.content, c2.content) {
        (ChildContentV::Block(b1), ChildContentV::Block(b2)) => b1.len() == b2.len() && forall|i: int|
            0 <= i < b1.len() ==> children_alike(#[trigger] b1[i], b2[i]),
        (ChildContentV::CommandLine(x), ChildContentV::CommandLine(y)) => calls_alike(x, y),
        (ChildContentV::SystemCallLine(x), ChildContentV::SystemCallLine(y)) => calls_alike(x, y),
        (ChildContentV::EmbeddedCode(a), ChildContentV::EmbeddedCode(b)) => normalize_embedded_code(a)
            == normalize_embedded_code(b),
        _ => c1.content == c2.content,
    }
}

proof fn lemma_literals_alike(l1: LiteralV, l2: LiteralV)
    requires
        literals_alike(l1, l2),
    ensures
        enc_literal(l1) == enc_literal(l2),
    decreases l1,
{
    match (l1, l2) {
        (LiteralV::Float(a), LiteralV::Float(b)) => law_float_normalization(a, b),
        (LiteralV::Array(v1), LiteralV::Array(v2)) => {
            lemma_items_alike(l1, v1, v2, v1.len() as int);
            assert(v1.take(v1.len() as int) =~= v1);
            assert(v2.take(v2.len() as int) =~= v2);
            assert(enc_literal(l1) == enc_literal(l2));
        },
        (LiteralV::Object(e1), LiteralV::Object(e2)) => {
            let e3 = choose|e3: Seq<(Seq<char>, LiteralV)>|
                #![trigger e3.to_multiset()]
                e3.len() == e1.len() && e3.to_multiset() == e2.to_multiset() && forall|i: int|
                    0 <= i < e1.len() ==> (#[trigger] e3[i]).0 == e1[i].0 && literals_alike(e1[i].1, e3[i].1);
            assert forall|i: int| 0 <= i < e1.len() implies #[trigger] keyed_entries(e1)[i] == keyed_entries(e3)[i] by {
                assert(e3[i].0 == e1[i].0 && literals_alike(e1[i].1, e3[i].1));
                assert(decreases_to!(l1 => e1[i].1)) by {
                    assert(decreases_to!(l1 => e1));
                    assert(decreases_to!(e1 => e1[i]));
                }
                lemma_literals_alike(e1[i].1, e3[i].1);
            }
            assert(keyed_entries(e1) =~= keyed_entries(e3));
            assert(distinct_keys(e3)) by {
                assert forall|i: int, j: int| 0 <= i < j < e3.len() implies (#[trigger] e3[i]).0 != (#[trigger] e3[j]).0 by {
                    assert(e3[i].0 == e1[i].0);
                    assert(e3[j].0 == e1[j].0);
                }
            }
            law_object_ignores_entry_order(e3, e2);
            assert(enc_literal(l1) == enc_literal(LiteralV::Object(e3)));
        },
        _ => {},
    }
}

proof fn lemma_items_alike(l1: LiteralV, v1: Seq<LiteralV>, v2: Seq<LiteralV>, n: int)
    requires
        l1 == LiteralV::Array(v1),
        literals_alike(l1, LiteralV::Array(v2)),
        0 <= n <= v1.len(),
    ensures
        crate::fingerprint::enc_literals(v1.take(n)) == crate::fingerprint::enc_literals(v2.take(n)),
    decreases l1, n,
{
    if n > 0 {
        lemma_items_alike(l1, v1, v2, n - 1);
        assert(v1.take(n).drop_last() =~= v1.take(n - 1));
        assert(v2.take(n).drop_last() =~= v2.take(n - 1));
        assert(literals_alike(v1[n - 1], v2[n - 1]));
        assert(decreases_to!(l1 => v1[n - 1])) by {
            assert(decreases_to!(l1 => v1));
            assert(decreases_to!(v1 => v1[n - 1]));
        }
        lemma_literals_alike(v1[n - 1], v2[n - 1]);
    }
    if n == v1.len() {
        assert(v1.take(n) =~= v1);
        assert(v2.take(n) =~= v2);
    }
}

proof fn lemma_arguments_map_on(s: Seq<ArgumentV>, f: spec_fn(ArgumentV) -> ArgumentV, all: Seq<ArgumentV>)
    requires
        forall|i: int| 0 <= i < s.len() ==> all.contains(#[trigger] s[i]),
        forall|a: ArgumentV| all.contains(a) ==> #[trigger] enc_argument(f(a)) == enc_argument(a),
    ensures
        enc_arguments(s.map_values(f)) == enc_arguments(s),
    decreases s.len(),
{
    if s.len() > 0 {
        assert(s.map_values(f).drop_last() =~= s.drop_last().map_values(f));
        assert forall|i: int| 0 <= i < s.drop_last().len() implies all.contains(#[trigger] s.drop_last()[i]) by {
            assert(s.drop_last()[i] == s[i]);
        }
        lemma_arguments_map_on(s.drop_last(), f, all);
        assert(all.contains(s[s.len() - 1]));
        assert(enc_argument(f(s.last())) == enc_argument(s.last()));
    }
}

proof fn lemma_calls_alike(x: CallV, y: CallV)
    requires
        calls_alike(x, y),
    ensures
        enc_call(x) == enc_call(y),
{
    let args = x.arguments;
    let n = args.len();
    let a3 = choose|a3: Seq<ArgumentV>|
        #![trigger a3.to_multiset()]
        a3.len() == args.len() && a3.to_multiset() == y.arguments.to_multiset() && forall|i: int|
            0 <= i < args.len() ==> (#[trigger] a3[i]).name == args[i].name
                && rvalues_alike(args[i].value, a3[i].value);
    let f = |a: ArgumentV|
        if exists|i: int| 0 <= i < n && args[i] == a {
            a3[choose|i: int| 0 <= i < n && args[i] == a]
        } else {
            a
        };
    assert forall|k: int| 0 <= k < n implies #[trigger] f(args[k]) == a3[k] by {
        assert(exists|i: int| 0 <= i < n && args[i] == args[k]);
        let i = choose|i: int| 0 <= i < n && args[i] == args[k];
        if i != k {
            if i < k {
                assert(args[i].name != args[k].name);
            } else {
                assert(args[k].name != args[i].name);
            }
        }
    }
    assert(args.map_values(f) =~= a3);
    assert forall|a: ArgumentV| #[trigger] f(a).name == a.name by {
        if exists|i: int| 0 <= i < n && args[i] == a {
            let i = choose|i: int| 0 <= i < n && args[i] == a;
            assert(a3[i].name == args[i].name);
        }
    }
    assert forall|a: ArgumentV| args.contains(a) implies #[trigger] enc_argument(f(a)) == enc_argument(a) by {
        let i = choose|i: int| 0 <= i < n && args[i] == a;
        assert(f(a) == a3[i]);
        assert(rvalues_alike(args[i].value, a3[i].value));
        if let (RValueV::Literal(p), RValueV::Literal(q)) = (args[i].value, a3[i].value) {
            lemma_literals_alike(p, q);
        }
    }
    lemma_isort_map(args, f);
    let sorted = isort(args, arg_order());
    lemma_arg_order(args);
    crate::sorting::lemma_isort_multiset(args, arg_order());
    assert forall|i: int| 0 <= i < sorted.len() implies args.contains(#[trigger] sorted[i]) by {
        broadcast use vstd::seq_lib::group_to_multiset_ensures;
        assert(sorted.to_multiset().count(sorted[i]) > 0);
    }
    lemma_arguments_map_on(sorted, f, args);
    let x3 = CallV { arguments: a3, ..x };
    assert(enc_call(x) == enc_call(x3));
    assert(distinct_names(a3)) by {
        assert forall|i: int, j: int| 0 <= i < j < a3.len() implies (#[trigger] a3[i]).name != (#[trigger] a3[j]).name by {
            assert(a3[i].name == args[i].name);
            assert(a3[j].name == args[j].name);
        }
    }
    law_call_ignores_argument_order(x3, CallV { command: x.command, arguments: y.arguments });
    assert(CallV { command: x.command, arguments: y.arguments } == y);
}

proof fn lemma_children_alike(c1: ChildV, c2: ChildV)
    requires
        children_alike(c1, c2),
    ensures
        enc_child(c1) == enc_child(c2),
    decreases c1,
{
    let mid = ChildV { attributes: c2.attributes, content: c1.content };
    law_child_ignores_attribute_order(c1, mid);
    match (c1.content, c2.content) {
        (ChildContentV::Block(b1), ChildContentV::Block(b2)) => {
            assert forall|i: int| 0 <= i < b1.len() implies enc_child(#[trigger] b1[i]) == enc_child(b2[i]) by {
                assert(children_alike(b1[i], b2[i]));
                assert(decreases_to!(c1 => b1[i])) by {
                    assert(decreases_to!(c1 => c1.content));
                    assert(decreases_to!(c1.content => b1));
                    assert(decreases_to!(b1 => b1[i]));
                }
                lemma_children_alike(b1[i], b2[i]);
            }
            law_fingerprint_from_children(b1, b2);
        },
        (ChildContentV::CommandLine(x), ChildContentV::CommandLine(y)) => lemma_calls_alike(x, y),
        (ChildContentV::SystemCallLine(x), ChildContentV::SystemCallLine(y)) => lemma_calls_alike(x, y),
        (ChildContentV::EmbeddedCode(a), ChildContentV::EmbeddedCode(b)) => law_embedded_code_normalization(a, b),
        _ => {},
    }
    assert(enc_content(c1.content) == enc_content(c2.content));
}

/// A block fingerprint sees none of these, in any number and at any
/// depth: the order of a line's attributes; the order of the arguments,
/// with distinct names, of a command or system call; the order of the
/// entries, with distinct keys, of an object value, nested ones included;
/// the sign of a zero float and the payload of a NaN; the line breaks and
/// surrounding whitespace of embedded code; in nested blocks too.
pub proof fn law_block_fingerprint_congruence(b1: Seq<ChildV>, b2: Seq<ChildV>)
    requires
        b1.len() == b2.len(),
        forall|i: int| 0 <= i < b1.len() ==> children_alike(#[trigger] b1[i], b2[i]),
    ensures
        spec_fingerprint(b1) == spec_fingerprint(b2),
{
    assert forall|i: int| 0 <= i < b1.len() implies enc_child(#[trigger] b1[i]) == enc_child(b2[i]) by {
        lemma_children_alike(b1[i], b2[i]);
    }
    law_fingerprint_from_children(b1, b2);
}

proof fn lemma_hex_char(d: int)
    requires
        0 <= d < 16,
    ensures
        '\0' <= hex_char(d) <= '\u{7f}',
        hex_value(hex_char(d) as u8) == Some(d as u8),
{
    if d < 10 {
        assert(((48 + d) as char) as u8 == 48 + d);
    } else {
        assert(((87 + d) as char) as u8 == 87 + d);
    }
}

/// Reading back the hexadecimal text of a fingerprint gives the same
/// fingerprint: the text is 32 hexadecimal digits that decode to its bytes.
pub proof fn law_hex_round_trip(b: Seq<u8>)
    requires
        b.len() == 16,
    ensures
        encode_utf8(hex_string(b)).len() == 32,
        all_hex(encode_utf8(hex_string(b))),
        hex_decode(encode_utf8(hex_string(b))) == b,
{
    let h = hex_string(b);
    assert forall|i: int| 0 <= i < h.len() implies '\0' <= #[trigger] h[i] <= '\u{7f}' by {
        if i % 2 == 0 {
            lemma_hex_char(b[i / 2] as int / 16);
        } else {
            lemma_hex_char(b[i / 2] as int % 16);
        }
    }
    assert(is_ascii_chars(h));
    is_ascii_chars_encode_utf8(h);
    let e = encode_utf8(h);
    assert forall|i: int| 0 <= i < e.len() implies (#[trigger] hex_value(e[i])) is Some by {
        assert(e[i] == h[i] as u8);
        if i % 2 == 0 {
            lemma_hex_char(b[i / 2] as int / 16);
        } else {
            lemma_hex_char(b[i / 2] as int % 16);
        }
    }
    assert forall|k: int| 0 <= k < 16 implies #[trigger] hex_decode(e)[k] == b[k] by {
        assert(e[2 * k] == h[2 * k] as u8);
        assert(e[2 * k + 1] == h[2 * k + 1] as u8);
        assert((2 * k) / 2 == k);
        assert((2 * k + 1) / 2 == k);
        assert((2 * k) % 2 == 0);
        assert((2 * k + 1) % 2 == 1);
        lemma_hex_char(b[k] as int / 16);
        lemma_hex_char(b[k] as int % 16);
        assert(b[k] as int / 16 * 16 + b[k] as int % 16 == b[k] as int);
    }
    assert(hex_decode(e) =~= b);
}

/// ASCII letters made upper case, as `str::to_uppercase` does to ASCII
/// text.
pub open spec fn ascii_upper(s: Seq<char>) -> Seq<char> {
    s.map_values(|c: char| if 'a' <= c <= 'z' { ((c as u32) - 32) as char } else { c })
}

proof fn lemma_upper_hex_char(d: int)
    requires
        0 <= d < 16,
    ensures
        ({
            let c = hex_char(d);
            let u = if 'a' <= c <= 'z' { ((c as u32) - 32) as char } else { c };
            &&& '\0' <= u <= '\u{7f}'
            &&& hex_value(u as u8) == Some(d as u8)
        }),
{
    if d < 10 {
        assert(((48 + d) as char) as u8 == 48 + d);
    } else {
        assert((((87 + d) as char) as u32 - 32) as char as u8 == 55 + d);
    }
}

/// The hexadecimal text of a fingerprint reads back as the same bytes in
/// upper case too.
pub proof fn law_hex_round_trip_upper_case(b: Seq<u8>)
    requires
        b.len() == 16,
    ensures
        encode_utf8(ascii_upper(hex_string(b))).len() == 32,
        all_hex(encode_utf8(ascii_upper(hex_string(b)))),
        hex_decode(encode_utf8(ascii_upper(hex_string(b)))) == b,
{
    let h = ascii_upper(hex_string(b));
    let l = hex_string(b);
    assert forall|i: int| 0 <= i < h.len() implies '\0' <= #[trigger] h[i] <= '\u{7f}' by {
        assert(h[i] == (if 'a' <= l[i] <= 'z' { ((l[i] as u32) - 32) as char } else { l[i] }));
        if i % 2 == 0 {
            lemma_upper_hex_char(b[i / 2] as int / 16);
        } else {
            lemma_upper_hex_char(b[i / 2] as int % 16);
        }
    }
    assert(is_ascii_chars(h));
    is_ascii_chars_encode_utf8(h);
    let e = encode_utf8(h);
    assert forall|i: int| 0 <= i < e.len() implies (#[trigger] hex_value(e[i])) is Some by {
        assert(e[i] == h[i] as u8);
        assert(h[i] == (if 'a' <= l[i] <= 'z' { ((l[i] as u32) - 32) as char } else { l[i] }));
        if i % 2 == 0 {
            lemma_upper_hex_char(b[i / 2] as int / 16);
        } else {
            lemma_upper_hex_char(b[i / 2] as int % 16);
        }
    }
    assert forall|k: int| 0 <= k < 16 implies #[trigger] hex_decode(e)[k] == b[k] by {
        assert(e[2 * k] == h[2 * k] as u8);
        assert(e[2 * k + 1] == h[2 * k + 1] as u8);
        assert(h[2 * k] == (if 'a' <= l[2 * k] <= 'z' { ((l[2 * k] as u32) - 32) as char } else { l[2 * k] }));
        assert(h[2 * k + 1] == (if 'a' <= l[2 * k + 1] <= 'z' { ((l[2 * k + 1] as u32) - 32) as char } else { l[2 * k + 1] }));
        assert((2 * k) / 2 == k);
        assert((2 * k + 1) / 2 == k);
        assert((2 * k) % 2 == 0);
        assert((2 * k + 1) % 2 == 1);
        lemma_upper_hex_char(b[k] as int / 16);
        lemma_upper_hex_char(b[k] as int % 16);
        assert(b[k] as int / 16 * 16 + b[k] as int % 16 == b[k] as int);
    }
    assert(hex_decode(e) =~= b);
}

// ---------------------------------------------------------------------
// What a fingerprint input does tell apart
// ---------------------------------------------------------------------

proof fn lemma_u64_le_injective(x: u64, y: u64)
    requires
        u64_le(x) == u64_le(y),
    ensures
        x == y,
{
    assert(u64_le(x)[0] == u64_le(y)[0]);
    assert(u64_le(x)[1] == u64_le(y)[1]);
    assert(u64_le(x)[2] == u64_le(y)[2]);
    assert(u64_le(x)[3] == u64_le(y)[3]);
    assert(u64_le(x)[4] == u64_le(y)[4]);
    assert(u64_le(x)[5] == u64_le(y)[5]);
    assert(u64_le(x)[6] == u64_le(y)[6]);
    assert(u64_le(x)[7] == u64_le(y)[7]);
    assert(x == y) by (bit_vector)
        requires
            (x & 0xff) as u8 == (y & 0xff) as u8,
            ((x >> 8) & 0xff) as u8 == ((y >> 8) & 0xff) as u8,
            ((x >> 16) & 0xff) as u8 == ((y >> 16) & 0xff) as u8,
            ((x >> 24) & 0xff) as u8 == ((y >> 24) & 0xff) as u8,
            ((x >> 32) & 0xff) as u8 == ((y >> 32) & 0xff) as u8,
            ((x >> 40) & 0xff) as u8 == ((y >> 40) & 0xff) as u8,
            ((x >> 48) & 0xff) as u8 == ((y >> 48) & 0xff) as u8,
            ((x >> 56) & 0xff) as u8 == ((y >> 56) & 0xff) as u8,
    ;
}

proof fn lemma_enc_str_injective(s1: Seq<char>, s2: Seq<char>)
    requires
        enc_str(s1) == enc_str(s2),
    ensures
        s1 == s2,
{
    let e1 = encode_utf8(s1);
    let e2 = encode_utf8(s2);
    assert(enc_str(s1).len() == 4 + e1.len());
    assert(enc_str(s2).len() == 4 + e2.len());
    assert(e1 =~= enc_str(s1).subrange(4, enc_str(s1).len() as int));
    assert(e2 =~= enc_str(s2).subrange(4, enc_str(s2).len() as int));
    vstd::utf8::encode_utf8_decode_utf8(s1);
    vstd::utf8::encode_utf8_decode_utf8(s2);
}

/// A scalar literal (null, a string, an integer or a boolean) is the
/// only scalar literal with its encoding: two of them that give a
/// fingerprint the same bytes are the same literal, so `true` and
/// `false`, two integers or two strings are told apart.
pub proof fn law_scalar_literal_encoding_injective(l1: LiteralV, l2: LiteralV)
    requires
        l1 is Null || l1 is Str || l1 is Integer || l1 is Boolean,
        l2 is Null || l2 is Str || l2 is Integer || l2 is Boolean,
        enc_literal(l1) == enc_literal(l2),
    ensures
        l1 == l2,
{
    let e1 = enc_literal(l1);
    let e2 = enc_literal(l2);
    assert(e1[0] == e2[0]);
    assert(e1[0] == literal_tag(l1));
    assert(e2[0] == literal_tag(l2));
    if let (LiteralV::Boolean(a), LiteralV::Boolean(b)) = (l1, l2) {
        assert(e1[1] == e2[1]);
    } else if let (LiteralV::Integer(a), LiteralV::Integer(b)) = (l1, l2) {
        let x = a as u64;
        let y = b as u64;
        assert(u64_le(x) =~= e1.subrange(1, 9));
        assert(u64_le(y) =~= e2.subrange(1, 9));
        lemma_u64_le_injective(x, y);
        assert(a == b) by (bit_vector)
            requires
                a as u64 == b as u64,
        ;
    } else if let (LiteralV::Str(a), LiteralV::Str(b)) = (l1, l2) {
        assert(enc_str(a) =~= e1.subrange(1, e1.len() as int));
        assert(enc_str(b) =~= e2.subrange(1, e2.len() as int));
        lemma_enc_str_injective(a, b);
    }
}

spec fn literal_tag(l: LiteralV) -> u8 {
    match l {
        LiteralV::Null => 0x80u8,
        LiteralV::Str(_) => 0x81u8,
        LiteralV::Integer(_) => 0x82u8,
        LiteralV::Float(_) => 0x83u8,
        LiteralV::Boolean(_) => 0x84u8,
        LiteralV::Array(_) => 0x85u8,
        LiteralV::Object(_) => 0x86u8,
    }
}

proof fn lemma_concat_differ(p1: Seq<u8>, x1: Seq<u8>, p2: Seq<u8>, x2: Seq<u8>)
    requires
        p1.len() == p2.len(),
        x1.len() == x2.len(),
        p1 != p2 || x1 != x2,
    ensures
        (p1 + x1).len() == (p2 + x2).len(),
        p1 + x1 != p2 + x2,
{
    if p1 != p2 {
        assert(!(p1 =~= p2));
        let i = choose|i: int| 0 <= i < p1.len() && p1[i] != p2[i];
        assert((p1 + x1)[i] != (p2 + x2)[i]);
    } else {
        assert(!(x1 =~= x2));
        let i = choose|i: int| 0 <= i < x1.len() && x1[i] != x2[i];
        assert((p1 + x1)[p1.len() + i] != (p2 + x2)[p2.len() + i]);
    }
}

proof fn lemma_arguments_differ(s: Seq<ArgumentV>, old: ArgumentV, new: ArgumentV)
    requires
        enc_argument(old).len() == enc_argument(new).len(),
        enc_argument(old) != enc_argument(new),
    ensures
        enc_arguments(s.map_values(swap_argument(old, new))).len() == enc_arguments(s).len(),
        s.contains(old) ==> enc_arguments(s.map_values(swap_argument(old, new))) != enc_arguments(s),
    decreases s.len(),
{
    let f = swap_argument(old, new);
    if s.len() > 0 {
        let d = s.drop_last();
        assert(s.map_values(f).drop_last() =~= d.map_values(f));
        lemma_arguments_differ(d, old, new);
        let x = s.last();
        assert(s.map_values(f).last() == f(x));
        if s.contains(old) {
            if x == old {
                lemma_concat_differ(
                    enc_arguments(d.map_values(f)),
                    enc_argument(new),
                    enc_arguments(d),
                    enc_argument(old),
                );
            } else {
                let m = choose|m: int| 0 <= m < s.len() && s[m] == old;
                assert(d[m] == old);
                lemma_concat_differ(enc_arguments(d.map_values(f)), enc_argument(x), enc_arguments(d), enc_argument(x));
            }
        }
    }
}

proof fn lemma_children_differ(b1: Seq<ChildV>, b2: Seq<ChildV>, k: int)
    requires
        b1.len() == b2.len(),
        0 <= k < b1.len(),
        forall|i: int| 0 <= i < b1.len() && i != k ==> #[trigger] b1[i] == b2[i],
        enc_child(b1[k]).len() == enc_child(b2[k]).len(),
        enc_child(b1[k]) != enc_child(b2[k]),
    ensures
        enc_children(b1).len() == enc_children(b2).len(),
        enc_children(b1) != enc_children(b2),
    decreases b1.len(),
{
    let (p1, p2) = (b1.drop_last(), b2.drop_last());
    let n = b1.len() - 1;
    if k == n {
        assert(p1 =~= p2);
        lemma_concat_differ(enc_children(p1), enc_child(b1[n]), enc_children(p2), enc_child(b2[n]));
    } else {
        assert(p1[k] == b1[k] && p2[k] == b2[k]);
        assert forall|i: int| 0 <= i < p1.len() && i != k implies #[trigger] p1[i] == p2[i] by {
            assert(p1[i] == b1[i] && p2[i] == b2[i]);
        }
        lemma_children_differ(p1, p2, k);
        assert(b1[n] == b2[n]);
        lemma_concat_differ(enc_children(p1), enc_child(b1[n]), enc_children(p2), enc_child(b2[n]));
    }
}

/// A block whose command or system call has an argument, among
/// arguments with distinct names, with a null, string, integer or
/// boolean value, and the same block with that value made another such
/// literal that encodes to as many bytes, give the hash different
/// inputs: `flag=true` and `flag=false` are told apart.
pub proof fn law_block_sees_scalar_argument(b: Seq<ChildV>, k: int, j: int, l2: LiteralV)
    requires
        0 <= k < b.len(),
        call_of(b[k]) is Some,
        0 <= j < call_of(b[k])->0.arguments.len(),
        distinct_names(call_of(b[k])->0.arguments),
        call_of(b[k])->0.arguments[j].value matches RValueV::Literal(l1) && l1 != l2
            && (l1 is Null || l1 is Str || l1 is Integer || l1 is Boolean)
            && enc_literal(l1).len() == enc_literal(l2).len(),
        l2 is Null || l2 is Str || l2 is Integer || l2 is Boolean,
    ensures
        fingerprint_input(b) != fingerprint_input(
            b.update(
                k,
                with_call(
                    b[k],
                    CallV {
                        arguments: call_of(b[k])->0.arguments.update(
                            j,
                            ArgumentV {
                                name: call_of(b[k])->0.arguments[j].name,
                                value: RValueV::Literal(l2),
                            },
                        ),
                        ..call_of(b[k])->0
                    },
                ),
            ),
        ),
{
    broadcast use vstd::seq_lib::group_to_multiset_ensures;

    let x = call_of(b[k])->0;
    let old = x.arguments[j];
    let l1 = old.value->Literal_0;
    let new = ArgumentV { name: old.name, value: RValueV::Literal(l2) };
    let f = swap_argument(old, new);
    let args2 = x.arguments.update(j, new);
    assert(x.arguments.map_values(f) =~= args2) by {
        assert forall|i: int| 0 <= i < x.arguments.len() implies #[trigger] x.arguments.map_values(f)[i] == args2[i] by {
            if i != j {
                assert(x.arguments[i].name != old.name);
            }
        }
    }
    // the new value encodes differently, to as many bytes
    if enc_literal(l1) == enc_literal(l2) {
        law_scalar_literal_encoding_injective(l1, l2);
    }
    lemma_concat_differ(seq![0x70u8], enc_literal(l2), seq![0x70u8], enc_literal(l1));
    assert(enc_rvalue(new.value) == seq![0x70u8] + enc_literal(l2));
    assert(enc_rvalue(old.value) == seq![0x70u8] + enc_literal(l1));
    lemma_concat_differ(seq![0x04u8] + enc_str(old.name), enc_rvalue(new.value), seq![0x04u8] + enc_str(old.name), enc_rvalue(old.value));
    assert(enc_argument(new) == seq![0x04u8] + enc_str(old.name) + enc_rvalue(new.value));
    assert(enc_argument(old) == seq![0x04u8] + enc_str(old.name) + enc_rvalue(old.value));
    // sorting keeps the argument, and puts the new one in its place
    assert forall|a: ArgumentV| #[trigger] f(a).name == a.name by {}
    lemma_isort_map(x.arguments, f);
    let sorted = isort(x.arguments, arg_order());
    crate::sorting::lemma_isort_multiset(x.arguments, arg_order());
    assert(x.arguments[j] == old);
    assert(x.arguments.contains(old));
    assert(x.arguments.to_multiset().count(old) > 0);
    assert(sorted.contains(old));
    lemma_arguments_differ(sorted, old, new);
    let y = CallV { arguments: args2, ..x };
    assert(isort(y.arguments, arg_order()) == sorted.map_values(f));
    assert(sorted.map_values(f).len() == sorted.len());
    lemma_concat_differ(
        enc_str(x.command) + crate::fingerprint::u32_le(sorted.len() as u32),
        enc_arguments(sorted.map_values(f)),
        enc_str(x.command) + crate::fingerprint::u32_le(sorted.len() as u32),
        enc_arguments(sorted),
    );
    assert(enc_call(y) != enc_call(x));
    assert(enc_call(y).len() == enc_call(x).len());
    let c = with_call(b[k], y);
    let tag: u8 = match b[k].content {
        ChildContentV::SystemCallLine(_) => 0x23u8,
        _ => 0x22u8,
    };
    assert(enc_content(c.content) == seq![tag] + enc_call(y));
    assert(enc_content(b[k].content) == seq![tag] + enc_call(x));
    lemma_concat_differ(seq![tag], enc_call(y), seq![tag], enc_call(x));
    let sa = isort(b[k].attributes, attr_order());
    let head = seq![0x02u8] + crate::fingerprint::u32_le(sa.len() as u32) + crate::fingerprint::enc_attributes(sa);
    lemma_concat_differ(head, enc_content(c.content), head, enc_content(b[k].content));
    assert(enc_child(c) == head + enc_content(c.content));
    assert(enc_child(b[k]) == head + enc_content(b[k].content));
    let b2 = b.update(k, c);
    lemma_children_differ(b2, b, k);
    let h = crate::fingerprint::version_prefix() + seq![0x01u8] + crate::fingerprint::u32_le(b.len() as u32);
    lemma_concat_differ(h, enc_children(b2), h, enc_children(b));
    assert(fingerprint_input(b2) =~= h + enc_children(b2));
    assert(fingerprint_input(b) =~= h + enc_children(b));
}

/// Two float literals encode alike only when their bit patterns agree
/// once `-0.0` is made `0.0` and every NaN the canonical one: any other
/// two floats are told apart.
pub proof fn law_float_encoding_sees_normalized_bits(a: u64, b: u64)
    requires
        enc_literal(LiteralV::Float(a)) == enc_literal(LiteralV::Float(b)),
    ensures
        normalize_f64_bits(a) == normalize_f64_bits(b),
{
    let e1 = enc_literal(LiteralV::Float(a));
    let e2 = enc_literal(LiteralV::Float(b));
    assert(u64_le(normalize_f64_bits(a)) =~= e1.subrange(1, 9));
    assert(u64_le(normalize_f64_bits(b)) =~= e2.subrange(1, 9));
    lemma_u64_le_injective(normalize_f64_bits(a), normalize_f64_bits(b));
}

} // verus!
