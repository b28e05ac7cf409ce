//! Building storage keys: big-endian slot indices behind a namespace, and
//! length-prefixed nested namespaces.

use vstd::prelude::*;

verus! {

/// The four bytes of `x`, most significant first.
#[verifier::opaque]
pub open spec fn be_bytes(x: u32) -> Seq<u8> {
    seq![
        (x / 0x100_0000) as u8,
        ((x / 0x1_0000) % 0x100) as u8,
        ((x / 0x100) % 0x100) as u8,
        (x % 0x100) as u8,
    ]
}

/// The number whose big-endian bytes are the first four bytes of `bytes`.
#[verifier::opaque]
pub open spec fn be_value(bytes: Seq<u8>) -> u32
    recommends
        bytes.len() == 4,
{
    (bytes[0] as int * 0x100_0000 + bytes[1] as int * 0x1_0000 + bytes[2] as int * 0x100
        + bytes[3] as int) as u32
}

/// Decoding undoes encoding.
pub proof fn lemma_be_round_trip(x: u32)
    ensures
        be_bytes(x).len() == 4,
        be_value(be_bytes(x)) == x,
{
    reveal(be_bytes);
    reveal(be_value);
}

/// Different numbers have different encodings.
pub proof fn lemma_be_injective(a: u32, b: u32)
    ensures
        be_bytes(a) == be_bytes(b) ==> a == b,
{
    lemma_be_round_trip(a);
    lemma_be_round_trip(b);
}

/// Encodes `x` as four bytes, most significant first.
pub fn u32_to_be(x: u32) -> (bytes: Vec<u8>)
    ensures
        bytes@ == be_bytes(x),
{
    let mut bytes: Vec<u8> = Vec::new();
    bytes.push((x / 0x100_0000) as u8);
    bytes.push(((x / 0x1_0000) % 0x100) as u8);
    bytes.push(((x / 0x100) % 0x100) as u8);
    bytes.push((x % 0x100) as u8);
    proof {
        reveal(be_bytes);
    }
    assert(bytes@ =~= be_bytes(x));
    bytes
}

/// Decodes four bytes, most significant first.
pub fn u32_from_be(bytes: &[u8]) -> (x: u32)
    requires
        bytes@.len() == 4,
    ensures
        x == be_value(bytes@),
{
    let b0: u32 = bytes[0] as u32;
    let b1: u32 = bytes[1] as u32;
    let b2: u32 = bytes[2] as u32;
    let b3: u32 = bytes[3] as u32;
    proof {
        reveal(be_value);
    }
    b0 * 0x100_0000 + b1 * 0x1_0000 + b2 * 0x100 + b3
}

/// `prefix` followed by `suffix`.
pub fn concat(prefix: &[u8], suffix: &[u8]) -> (key: Vec<u8>)
    ensures
        key@ == prefix@ + suffix@,
{
    let mut key: Vec<u8> = Vec::new();
    let mut i: usize = 0;
    while i < prefix.len()
        invariant
            i <= prefix@.len(),
            key@ == prefix@.subrange(0, i as int),
        decreases prefix@.len() - i,
    {
        key.push(prefix[i]);
        i += 1;
        assert(key@ =~= prefix@.subrange(0, i as int));
    }
    assert(key@ =~= prefix@);
    let mut j: usize = 0;
    while j < suffix.len()
        invariant
            j <= suffix@.len(),
            key@ == prefix@ + suffix@.subrange(0, j as int),
        decreases suffix@.len() - j,
    {
        key.push(suffix[j]);
        j += 1;
        assert(key@ =~= prefix@ + suffix@.subrange(0, j as int));
    }
    assert(key@ =~= prefix@ + suffix@);
    key
}

/// The two bytes that announce a namespace of `len` bytes.
pub open spec fn length_prefix(len: nat) -> Seq<u8>
    recommends
        len <= 0xFFFF,
{
    seq![(len / 0x100) as u8, (len % 0x100) as u8]
}

/// Encodes the length of a namespace as two bytes, most significant first.
pub fn encode_length(namespace: &[u8]) -> (bytes: [u8; 2])
    requires
        namespace@.len() <= 0xFFFF,
    ensures
        bytes@ == length_prefix(namespace@.len()),
{
    let len: usize = namespace.len();
    let bytes: [u8; 2] = [(len / 0x100) as u8, (len % 0x100) as u8];
    assert(bytes@ =~= length_prefix(namespace@.len()));
    bytes
}

/// Each namespace behind its length prefix, one after the other.
pub open spec fn prefixed(namespaces: Seq<Seq<u8>>) -> Seq<u8>
    decreases namespaces.len(),
{
    if namespaces.len() == 0 {
        Seq::empty()
    } else {
        prefixed(namespaces.drop_last()) + length_prefix(namespaces.last().len())
            + namespaces.last()
    }
}

/// The views of a slice of byte strings.
pub open spec fn views(names: &[&[u8]]) -> Seq<Seq<u8>> {
    Seq::new(names@.len(), |i: int| names@[i]@)
}

/// True when every namespace is short enough for a two-byte length.
pub open spec fn all_short(names: Seq<Seq<u8>>) -> bool {
    forall|i: int| 0 <= i < names.len() ==> (#[trigger] names[i]).len() <= 0xFFFF
}

fn push_prefixed(out: &mut Vec<u8>, names: &[&[u8]])
    requires
        all_short(views(names)),
    ensures
        final(out)@ == old(out)@ + prefixed(views(names)),
{
    let ghost start = out@;
    let mut i: usize = 0;
    assert(views(names).subrange(0, 0) =~= Seq::<Seq<u8>>::empty());
    while i < names.len()
        invariant
            i <= names@.len(),
            all_short(views(names)),
            out@ == start + prefixed(views(names).subrange(0, i as int)),
        decreases names@.len() - i,
    {
        let namespace: &[u8] = names[i];
        assert(namespace@ == views(names)[i as int]);
        let head = encode_length(namespace);
        let ghost before = out@;
        out.push(head[0]);
        out.push(head[1]);
        let mut j: usize = 0;
        while j < namespace.len()
            invariant
                j <= namespace@.len(),
                out@ == before + length_prefix(namespace@.len()) + namespace@.subrange(
                    0,
                    j as int,
                ),
            decreases namespace@.len() - j,
        {
            out.push(namespace[j]);
            j += 1;
            assert(out@ =~= before + length_prefix(namespace@.len()) + namespace@.subrange(
                0,
                j as int,
            ));
        }
        assert(namespace@.subrange(0, j as int) =~= namespace@);
        proof {
            let upto = views(names).subrange(0, i as int + 1);
            assert(upto.drop_last() =~= views(names).subrange(0, i as int));
            assert(upto.last() == namespace@);
            assert(out@ =~= start + prefixed(upto));
        }
        i += 1;
    }
    assert(views(names).subrange(0, i as int) =~= views(names));
}

/// The key of `key` under the nested `namespaces`: each namespace behind its
/// two-byte length, then the key itself.
pub fn namespaces_with_key(namespaces: &[&[u8]], key: &[u8]) -> (out: Vec<u8>)
    requires
        all_short(views(namespaces)),
    ensures
        out@ == prefixed(views(namespaces)) + key@,
{
    let mut out: Vec<u8> = Vec::new();
    push_prefixed(&mut out, namespaces);
    let body = concat(out.as_slice(), key);
    body
}

/// As `namespaces_with_key`, for namespaces that come in two groups which
/// the caller does not want to join first.
pub fn nested_namespaces_with_key(top_names: &[&[u8]], sub_names: &[&[u8]], key: &[u8]) -> (out:
    Vec<u8>)
    requires
        all_short(views(top_names)),
        all_short(views(sub_names)),
    ensures
        out@ == prefixed(views(top_names)) + prefixed(views(sub_names)) + key@,
{
    let mut out: Vec<u8> = Vec::new();
    push_prefixed(&mut out, top_names);
    push_prefixed(&mut out, sub_names);
    let body = concat(out.as_slice(), key);
    body
}

} // verus!
