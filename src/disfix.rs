use vstd::prelude::*;

verus! {

/// The SHA-256 digest of `data`.
pub uninterp spec fn sha256_of(data: Seq<u8>) -> Seq<u8>;

/// Relies on sha2's `Sha256::digest`: the SHA-256 digest of the bytes,
/// which is 32 bytes long.
#[verifier::external_body]
fn sha256(data: &[u8]) -> (r: Vec<u8>)
    ensures
        r@ == sha256_of(data@),
        r@.len() == 32,
{
    <sha2::Sha256 as sha2::Digest>::digest(data).to_vec()
}

/// The bytes of `s` that are not zero, in order.
pub open spec fn nonzero_bytes(s: Seq<u8>) -> Seq<u8>
    decreases s.len(),
{
    if s.len() == 0 {
        s
    } else if s.last() != 0 {
        nonzero_bytes(s.drop_last()).push(s.last())
    } else {
        nonzero_bytes(s.drop_last())
    }
}

/// The disambiguation bytes of a digest: its first three non-zero bytes
/// (fewer where it has fewer).
pub open spec fn disambiguation_of(digest: Seq<u8>) -> Seq<u8> {
    let nz = nonzero_bytes(digest);
    nz.take(if nz.len() < 3 { nz.len() as int } else { 3 })
}

/// The prefix bytes of a digest as they stand: the four non-zero bytes that
/// follow the disambiguation bytes (fewer where it has fewer).
pub open spec fn raw_prefix_of(digest: Seq<u8>) -> Seq<u8> {
    let nz = nonzero_bytes(digest);
    let from = if nz.len() < 3 { nz.len() as int } else { 3 };
    let to = if nz.len() < 7 { nz.len() as int } else { 7 };
    nz.subrange(from, to)
}

/// A prefix with the low three bits of its fourth byte cleared.
pub open spec fn masked(prefix: Seq<u8>) -> Seq<u8> {
    if prefix.len() == 4 {
        prefix.update(3, prefix[3] & 0xF8u8)
    } else {
        prefix
    }
}

/// The disfix code of a type name: disambiguation bytes and masked prefix
/// bytes drawn from the SHA-256 digest of the name's UTF-8 bytes.
pub open spec fn disfix_of_name(name: Seq<char>) -> (Seq<u8>, Seq<u8>) {
    let digest = sha256_of(vstd::utf8::encode_utf8(name));
    (disambiguation_of(digest), masked(raw_prefix_of(digest)))
}

/// Splits a digest into its disambiguation bytes and its prefix bytes, the
/// prefix as it stands in the digest.
pub fn disfix_from_digest(digest: &[u8]) -> (r: (Vec<u8>, Vec<u8>))
    ensures
        r.0@ == disambiguation_of(digest@),
        r.1@ == raw_prefix_of(digest@),
{
    let mut nz: Vec<u8> = Vec::new();
    let mut i: usize = 0;
    while i < digest.len()
        invariant
            i <= digest@.len(),
            nz@ == nonzero_bytes(digest@.subrange(0, i as int)),
        decreases digest@.len() - i,
    {
        assert(digest@.subrange(0, i + 1).drop_last() =~= digest@.subrange(0, i as int));
        if digest[i] != 0 {
            nz.push(digest[i]);
        }
        i = i + 1;
    }
    assert(digest@.subrange(0, i as int) =~= digest@);
    let from: usize = if nz.len() < 3 { nz.len() } else { 3 };
    let to: usize = if nz.len() < 7 { nz.len() } else { 7 };
    let mut disamb: Vec<u8> = Vec::new();
    let mut prefix: Vec<u8> = Vec::new();
    let mut j: usize = 0;
    while j < to
        invariant
            from <= to <= nz@.len(),
            j <= to,
            disamb@ == nz@.subrange(0, if j < from { j as int } else { from as int }),
            prefix@ == nz@.subrange(from as int, if j < from { from as int } else { j as int }),
        decreases to - j,
    {
        if j < from {
            disamb.push(nz[j]);
        } else {
            prefix.push(nz[j]);
        }
        j = j + 1;
        assert(disamb@ =~= nz@.subrange(0, if j < from { j as int } else { from as int }));
        assert(prefix@ =~= nz@.subrange(from as int, if j < from { from as int } else { j as int }));
    }
    (disamb, prefix)
}

/// The disfix code of a registered type name: three disambiguation bytes
/// and four prefix bytes, the low three bits of the last one cleared.
pub fn compute_disfix(identity: &str) -> (r: (Vec<u8>, Vec<u8>))
    ensures
        (r.0@, r.1@) == disfix_of_name(identity@),
{
    let digest = sha256(identity.as_bytes());
    let (disamb, mut prefix) = disfix_from_digest(digest.as_slice());
    if prefix.len() == 4 {
        let last = prefix[3] & 0xF8u8;
        prefix.set(3, last);
    }
    (disamb, prefix)
}

/// The four bytes that lead the encoding of a message registered under
/// `identity`: the prefix bytes of its digest as they stand, unmasked.
pub fn registered_prefix(identity: &str) -> (r: Vec<u8>)
    ensures
        r@ == raw_prefix_of(sha256_of(vstd::utf8::encode_utf8(identity@))),
{
    let digest = sha256(identity.as_bytes());
    let (_disamb, prefix) = disfix_from_digest(digest.as_slice());
    prefix
}

} // verus!
