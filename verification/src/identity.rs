//! Stable identity bytes for script resources.
//!
//! A resource stream is a sequence of length-prefixed fields: each field is
//! its name's length as eight little-endian bytes, the name, the value's
//! length the same way, and the value.  The stream starts with a marker of
//! the scripting ABI and the compiler's identity, so a change of either
//! invalidates replay and checkpoint identities even when no source byte
//! changes.

use vstd::prelude::*;
use vstd::string::StringSliceAdditionalSpecFns;
use vstd::utf8::encode_utf8;
use crate::definition::{source_entries, with_shared, AssetStore};

verus! {

/// Identity marker of the scripting ABI.
pub open spec fn abi_marker() -> Seq<u8> {
    seq![0u8, 115, 107, 105, 114, 109, 105, 115, 104, 45, 112, 111, 110, 45, 102, 105, 103, 104, 116, 101, 114, 45, 118, 50, 0]
}

pub open spec fn pow256(i: nat) -> nat
    decreases i,
{
    if i == 0 { 1 } else { 256 * pow256((i - 1) as nat) }
}

/// `n` as eight little-endian bytes.
pub open spec fn le64(n: nat) -> Seq<u8> {
    Seq::new(8, |i: int| ((n / pow256(i as nat)) % 256) as u8)
}

/// One length-prefixed field.
pub open spec fn field_bytes(name: Seq<u8>, value: Seq<u8>) -> Seq<u8> {
    le64(name.len()) + name + le64(value.len()) + value
}

/// Fields for each value under one name, in order.
pub open spec fn named_fields(name: Seq<u8>, values: Seq<Seq<u8>>) -> Seq<u8>
    decreases values.len(),
{
    if values.len() == 0 {
        Seq::empty()
    } else {
        named_fields(name, values.drop_last()) + field_bytes(name, values.last())
    }
}

/// A field for each named entry, in order.
pub open spec fn entry_fields(entries: Seq<(Seq<char>, Seq<char>)>) -> Seq<u8>
    decreases entries.len(),
{
    if entries.len() == 0 {
        Seq::empty()
    } else {
        entry_fields(entries.drop_last()) + field_bytes(encode_utf8(entries.last().0), encode_utf8(entries.last().1))
    }
}

/// The ABI marker followed by the compiler identity.
pub open spec fn identity_prefix(compiler_identity: Seq<u8>) -> Seq<u8> {
    abi_marker() + "compiler:".spec_bytes() + compiler_identity + seq![0u8]
}

proof fn lemma_pow256_step(i: nat)
    ensures
        pow256(i + 1) == 256 * pow256(i),
        pow256(i) > 0,
    decreases i,
{
    if i > 0 {
        lemma_pow256_step((i - 1) as nat);
    }
}

/// Appends `n` as eight little-endian bytes.
fn push_le64(stream: &mut Vec<u8>, n: u64)
    ensures
        final(stream)@ == old(stream)@ + le64(n as nat),
{
    let ghost start = stream@;
    let mut v: u64 = n;
    let mut i: usize = 0;
    assert(pow256(0) == 1);
    assert(le64(n as nat).take(0) =~= Seq::<u8>::empty());
    while i < 8
        invariant
            i <= 8,
            stream@ == start + le64(n as nat).take(i as int),
            v as nat == (n as nat) / pow256(i as nat),
        decreases 8 - i,
    {
        proof {
            lemma_pow256_step(i as nat);
            assert(((n as nat) / pow256(i as nat)) / 256 == (n as nat) / pow256((i + 1) as nat)) by (nonlinear_arith)
                requires
                    pow256((i + 1) as nat) == 256 * pow256(i as nat),
                    pow256(i as nat) > 0,
            ;
        }
        let byte = (v % 256) as u8;
        assert(byte == le64(n as nat)[i as int]);
        stream.push(byte);
        assert(le64(n as nat).take(i + 1) =~= le64(n as nat).take(i as int).push(byte));
        v = v / 256;
        i = i + 1;
    }
    assert(le64(n as nat).take(8) =~= le64(n as nat));
}

fn push_bytes(stream: &mut Vec<u8>, bytes: &[u8])
    ensures
        final(stream)@ == old(stream)@ + bytes@,
{
    let ghost start = stream@;
    let mut i: usize = 0;
    while i < bytes.len()
        invariant
            i <= bytes@.len(),
            stream@ == start + bytes@.take(i as int),
        decreases bytes.len() - i,
    {
        stream.push(bytes[i]);
        assert(bytes@.take(i + 1) =~= bytes@.take(i as int).push(bytes@[i as int]));
        i = i + 1;
    }
    assert(bytes@.take(bytes@.len() as int) =~= bytes@);
}

/// Appends one length-prefixed field.
pub fn append_field(stream: &mut Vec<u8>, name: &[u8], value: &[u8])
    ensures
        final(stream)@ == old(stream)@ + field_bytes(name@, value@),
{
    push_le64(stream, name.len() as u64);
    push_bytes(stream, name);
    push_le64(stream, value.len() as u64);
    push_bytes(stream, value);
    assert(old(stream)@ + le64(name@.len()) + name@ + le64(value@.len()) + value@
        =~= old(stream)@ + field_bytes(name@, value@));
}

/// Appends the ABI marker and the compiler identity.
pub fn append_identity_prefix(stream: &mut Vec<u8>, compiler_identity: [u8; 32])
    ensures
        final(stream)@ == old(stream)@ + identity_prefix(compiler_identity@),
{
    let marker: [u8; 25] = [0, 115, 107, 105, 114, 109, 105, 115, 104, 45, 112, 111, 110, 45, 102, 105, 103, 104, 116, 101, 114, 45, 118, 50, 0];
    assert(marker@ =~= abi_marker());
    push_bytes(stream, &marker);
    push_bytes(stream, "compiler:".as_bytes());
    push_bytes(stream, &compiler_identity);
    stream.push(0);
    assert(old(stream)@ + abi_marker() + "compiler:".spec_bytes() + compiler_identity@ + seq![0u8]
        =~= old(stream)@ + identity_prefix(compiler_identity@));
}

/// The identity record of a compiled program: its source and each of its
/// dependencies (given in ascending name order).
pub fn encode_program_record(source: &str, dependencies: &Vec<(String, String)>) -> (r: Vec<u8>)
    ensures
        r@ == field_bytes("source".spec_bytes(), source.spec_bytes()) + entry_fields(source_entries(dependencies@)),
{
    let mut record: Vec<u8> = Vec::new();
    append_field(&mut record, "source".as_bytes(), source.as_bytes());
    let ghost head = record@;
    let ghost e = source_entries(dependencies@);
    let mut i: usize = 0;
    assert(e.take(0) =~= Seq::<(Seq<char>, Seq<char>)>::empty());
    assert(head =~= head + entry_fields(e.take(0)));
    while i < dependencies.len()
        invariant
            i <= dependencies.len(),
            e == source_entries(dependencies@),
            record@ == head + entry_fields(e.take(i as int)),
        decreases dependencies.len() - i,
    {
        assert(e.take(i + 1).drop_last() =~= e.take(i as int));
        append_field(&mut record, dependencies[i].0.as_str().as_bytes(), dependencies[i].1.as_str().as_bytes());
        assert(head + entry_fields(e.take(i as int)) + field_bytes(encode_utf8(e[i as int].0), encode_utf8(e[i as int].1))
            =~= head + entry_fields(e.take(i + 1)));
        i = i + 1;
    }
    assert(e.take(dependencies@.len() as int) =~= e);
    record
}

pub open spec fn strings_bytes(v: Seq<String>) -> Seq<Seq<u8>> {
    Seq::new(v.len(), |i: int| encode_utf8(v[i]@))
}

pub open spec fn records_bytes(v: Seq<Vec<u8>>) -> Seq<Seq<u8>> {
    Seq::new(v.len(), |i: int| v[i]@)
}

/// The identity stream of a set of selected sources with their
/// dependencies and program records.
pub open spec fn sources_identity(
    compiler_identity: Seq<u8>,
    standard_library: Option<Seq<u8>>,
    sdk_identity: Seq<u8>,
    selected: Seq<Seq<u8>>,
    dependencies: Seq<(Seq<char>, Seq<char>)>,
    program_records: Seq<Seq<u8>>,
) -> Seq<u8> {
    identity_header(compiler_identity, standard_library, sdk_identity)
        + named_fields("selected".spec_bytes(), selected)
        + entry_fields(dependencies)
        + named_fields("program".spec_bytes(), program_records)
}

/// The identities of the toolchain: ABI marker, compiler, standard
/// library (when configured) and SDK.
pub open spec fn identity_header(compiler_identity: Seq<u8>, standard_library: Option<Seq<u8>>, sdk_identity: Seq<u8>) -> Seq<u8> {
    identity_prefix(compiler_identity)
        + match standard_library {
            Some(id) => "stdlib:".spec_bytes() + id + seq![0u8],
            None => Seq::empty(),
        }
        + "sdk:".spec_bytes() + sdk_identity + seq![0u8]
}

fn append_header(stream: &mut Vec<u8>, compiler_identity: [u8; 32], standard_library: Option<&[u8]>, sdk_identity: &[u8])
    ensures
        final(stream)@ == old(stream)@ + identity_header(compiler_identity@,
            match standard_library { Some(s) => Some(s@), None => None }, sdk_identity@),
{
    let ghost start = stream@;
    append_identity_prefix(stream, compiler_identity);
    let ghost p1 = stream@;
    if let Some(id) = standard_library {
        push_bytes(stream, "stdlib:".as_bytes());
        push_bytes(stream, id);
        stream.push(0);
        assert(stream@ =~= p1 + ("stdlib:".spec_bytes() + id@ + seq![0u8]));
    } else {
        assert(stream@ =~= p1 + Seq::<u8>::empty());
    }
    let ghost p2 = stream@;
    push_bytes(stream, "sdk:".as_bytes());
    push_bytes(stream, sdk_identity);
    stream.push(0);
    assert(stream@ =~= p2 + "sdk:".spec_bytes() + sdk_identity@ + seq![0u8]);
    assert(stream@ =~= start + identity_header(compiler_identity@,
        match standard_library { Some(s) => Some(s@), None => None }, sdk_identity@));
}

fn append_entry_fields(stream: &mut Vec<u8>, dependencies: &Vec<(String, String)>)
    ensures
        final(stream)@ == old(stream)@ + entry_fields(source_entries(dependencies@)),
{
    let ghost deps = source_entries(dependencies@);
    let ghost before_deps = stream@;
    let mut k: usize = 0;
    assert(deps.take(0) =~= Seq::<(Seq<char>, Seq<char>)>::empty());
    assert(before_deps =~= before_deps + entry_fields(deps.take(0)));
    while k < dependencies.len()
        invariant
            k <= dependencies.len(),
            deps == source_entries(dependencies@),
            stream@ == before_deps + entry_fields(deps.take(k as int)),
        decreases dependencies.len() - k,
    {
        assert(deps.take(k + 1).drop_last() =~= deps.take(k as int));
        append_field(stream, dependencies[k].0.as_str().as_bytes(), dependencies[k].1.as_str().as_bytes());
        assert(before_deps + entry_fields(deps.take(k as int)) + field_bytes(encode_utf8(deps[k as int].0), encode_utf8(deps[k as int].1))
            =~= before_deps + entry_fields(deps.take(k + 1)));
        k = k + 1;
    }
    assert(deps.take(dependencies@.len() as int) =~= deps);
}

fn append_named_fields(stream: &mut Vec<u8>, name: &[u8], values: &Vec<Vec<u8>>)
    ensures
        final(stream)@ == old(stream)@ + named_fields(name@, records_bytes(values@)),
{
    let ghost start = stream@;
    let ghost v = records_bytes(values@);
    let mut i: usize = 0;
    assert(v.take(0) =~= Seq::<Seq<u8>>::empty());
    assert(start =~= start + named_fields(name@, v.take(0)));
    while i < values.len()
        invariant
            i <= values.len(),
            v == records_bytes(values@),
            stream@ == start + named_fields(name@, v.take(i as int)),
        decreases values.len() - i,
    {
        assert(v.take(i + 1).drop_last() =~= v.take(i as int));
        append_field(stream, name, values[i].as_slice());
        assert(start + named_fields(name@, v.take(i as int)) + field_bytes(name@, v[i as int])
            =~= start + named_fields(name@, v.take(i + 1)));
        i = i + 1;
    }
    assert(v.take(values@.len() as int) =~= v);
}

/// Appends the identity of the selected sources, the registered
/// dependencies and the program records (each given in ascending order).
/// The compiler, standard library and SDK identities are supplied by the
/// script runtime.
pub fn append_sources_with_dependencies(
    resource_bytes: &mut Vec<u8>,
    selected: &Vec<String>,
    assets: &AssetStore,
    program_records: &Vec<Vec<u8>>,
    compiler_identity: [u8; 32],
    standard_library: Option<&[u8]>,
    sdk_identity: &[u8],
)
    ensures
        final(resource_bytes)@ == old(resource_bytes)@ + sources_identity(
            compiler_identity@,
            match standard_library { Some(s) => Some(s@), None => None },
            sdk_identity@,
            strings_bytes(selected@),
            with_shared(assets@.sources, assets@.shared),
            records_bytes(program_records@),
        ),
{
    let ghost start = resource_bytes@;
    append_header(resource_bytes, compiler_identity, standard_library, sdk_identity);
    let ghost p1 = resource_bytes@;
    let mut selected_bytes: Vec<Vec<u8>> = Vec::new();
    let mut i: usize = 0;
    while i < selected.len()
        invariant
            i <= selected.len(),
            selected_bytes@.len() == i,
            forall|j: int| 0 <= j < i ==> (#[trigger] selected_bytes@[j])@ == encode_utf8(selected@[j]@),
        decreases selected.len() - i,
    {
        let mut bytes: Vec<u8> = Vec::new();
        push_bytes(&mut bytes, selected[i].as_str().as_bytes());
        assert(bytes@ =~= encode_utf8(selected@[i as int]@));
        selected_bytes.push(bytes);
        i = i + 1;
    }
    assert(records_bytes(selected_bytes@) =~= strings_bytes(selected@));
    append_named_fields(resource_bytes, "selected".as_bytes(), &selected_bytes);
    let ghost p2 = resource_bytes@;
    let dependencies = match assets.dependencies("") {
        Ok(d) => d,
        Err(_) => Vec::new(),
    };
    append_entry_fields(resource_bytes, &dependencies);
    let ghost p3 = resource_bytes@;
    append_named_fields(resource_bytes, "program".as_bytes(), program_records);
    let ghost h = identity_header(compiler_identity@, match standard_library { Some(s) => Some(s@), None => None }, sdk_identity@);
    let ghost a = named_fields("selected".spec_bytes(), strings_bytes(selected@));
    let ghost b = entry_fields(with_shared(assets@.sources, assets@.shared));
    let ghost c = named_fields("program".spec_bytes(), records_bytes(program_records@));
    assert(p1 == start + h);
    assert(p2 == p1 + a);
    assert(p3 == p2 + b);
    assert(resource_bytes@ == p3 + c);
    assert(resource_bytes@ =~= start + (h + a + b + c));
}


/// Two numbers below `256^k` with the same `k` low base-256 digits are
/// equal.
proof fn lemma_digits_determine(n: nat, m: nat, k: nat)
    requires
        n < pow256(k),
        m < pow256(k),
        forall|i: nat| i < k ==> #[trigger] ((n / pow256(i)) % 256) == (m / pow256(i)) % 256,
    ensures
        n == m,
    decreases k,
{
    if k == 0 {
        assert(pow256(0) == 1);
    } else {
        lemma_pow256_step((k - 1) as nat);
        assert(pow256(0) == 1);
        assert((n / pow256(0)) % 256 == (m / pow256(0)) % 256);
        let n1 = n / 256;
        let m1 = m / 256;
        vstd::arithmetic::div_mod::lemma_multiply_divide_lt(n as int, 256, pow256((k - 1) as nat) as int);
        vstd::arithmetic::div_mod::lemma_multiply_divide_lt(m as int, 256, pow256((k - 1) as nat) as int);
        assert forall|i: nat| i < k - 1 implies #[trigger] ((n1 / pow256(i)) % 256) == (m1 / pow256(i)) % 256 by {
            lemma_pow256_step(i);
            vstd::arithmetic::div_mod::lemma_div_denominator(n as int, 256, pow256(i) as int);
            vstd::arithmetic::div_mod::lemma_div_denominator(m as int, 256, pow256(i) as int);
            assert((n / pow256(i + 1)) % 256 == (m / pow256(i + 1)) % 256);
        }
        lemma_digits_determine(n1, m1, (k - 1) as nat);
        vstd::arithmetic::div_mod::lemma_fundamental_div_mod(n as int, 256);
        vstd::arithmetic::div_mod::lemma_fundamental_div_mod(m as int, 256);
    }
}

proof fn lemma_pow256_8()
    ensures
        pow256(8) == 0x1_0000_0000_0000_0000,
{
    reveal_with_fuel(pow256, 9);
}

/// Eight-byte little-endian lengths below `2^64` are distinct.
proof fn lemma_le64_injective(n: nat, m: nat)
    requires
        n < 0x1_0000_0000_0000_0000,
        m < 0x1_0000_0000_0000_0000,
        le64(n) == le64(m),
    ensures
        n == m,
{
    lemma_pow256_8();
    assert forall|i: nat| i < 8 implies #[trigger] ((n / pow256(i)) % 256) == (m / pow256(i)) % 256 by {
        lemma_pow256_step(i);
        let x = (n / pow256(i)) % 256;
        let y = (m / pow256(i)) % 256;
        assert(le64(n)[i as int] == x as u8);
        assert(le64(m)[i as int] == y as u8);
        assert(le64(n)[i as int] == le64(m)[i as int]);
        assert((x as u8) as int == x);
        assert((y as u8) as int == y);
    }
    lemma_digits_determine(n, m, 8);
}

/// Length-prefixed fields are unambiguous: a stream that starts with one
/// field determines that field's name and value and what follows it.
pub proof fn law_fields_are_unambiguous(
    name1: Seq<u8>,
    value1: Seq<u8>,
    rest1: Seq<u8>,
    name2: Seq<u8>,
    value2: Seq<u8>,
    rest2: Seq<u8>,
)
    requires
        name1.len() < 0x1_0000_0000_0000_0000,
        value1.len() < 0x1_0000_0000_0000_0000,
        name2.len() < 0x1_0000_0000_0000_0000,
        value2.len() < 0x1_0000_0000_0000_0000,
        field_bytes(name1, value1) + rest1 == field_bytes(name2, value2) + rest2,
    ensures
        name1 == name2,
        value1 == value2,
        rest1 == rest2,
{
    let s = field_bytes(name1, value1) + rest1;
    let t = field_bytes(name2, value2) + rest2;
    assert(s.subrange(0, 8) =~= le64(name1.len()));
    assert(t.subrange(0, 8) =~= le64(name2.len()));
    lemma_le64_injective(name1.len(), name2.len());
    let a: int = 8 + name1.len() as int;
    assert(s.subrange(8, a) =~= name1);
    assert(t.subrange(8, a) =~= name2);
    assert(s.subrange(a, a + 8) =~= le64(value1.len()));
    assert(t.subrange(a, a + 8) =~= le64(value2.len()));
    lemma_le64_injective(value1.len(), value2.len());
    let b: int = a + 8 + value1.len();
    assert(s.subrange(a + 8, b) =~= value1);
    assert(t.subrange(a + 8, b) =~= value2);
    assert(s.subrange(b, s.len() as int) =~= rest1);
    assert(t.subrange(b, t.len() as int) =~= rest2);
}

} // verus!
