//! The streaming multi-algorithm verifier: one live accumulator per expected
//! digest kind, all fed from the same byte stream, rendered into a single
//! verdict once the stream ends.

use vstd::prelude::*;
use vstd::utf8::encode_utf8;

use crate::error::Error;
use crate::hex::{
    hex_decode, hex_decode_seq, hex_encode_seq, is_hex_seq, lemma_hex_encode_is_hex,
    lemma_hex_encode_len, lemma_hex_round_trip,
};
use crate::util::bytes_eq;

verus! {

/// The supported digest algorithms.
#[derive(Clone, Copy, Debug, PartialEq, Eq, Structural)]
pub enum DigestKind {
    Md5,
    Sha1,
    Sha224,
    Sha256,
    Sha384,
    Sha512,
}

/// The fixed output length, in bytes, of each digest kind.
pub open spec fn digest_len(kind: DigestKind) -> nat {
    match kind {
        DigestKind::Md5 => 16,
        DigestKind::Sha1 => 20,
        DigestKind::Sha224 => 28,
        DigestKind::Sha256 => 32,
        DigestKind::Sha384 => 48,
        DigestKind::Sha512 => 64,
    }
}

/// The output length of `kind` as a machine integer.
pub fn digest_len_bytes(kind: DigestKind) -> (r: usize)
    ensures
        r == digest_len(kind),
{
    match kind {
        DigestKind::Md5 => 16,
        DigestKind::Sha1 => 20,
        DigestKind::Sha224 => 28,
        DigestKind::Sha256 => 32,
        DigestKind::Sha384 => 48,
        DigestKind::Sha512 => 64,
    }
}

/// The digest of `data` under `kind`: a fixed function of the algorithm and
/// the bytes alone, computed by OpenSSL.
pub uninterp spec fn spec_digest(kind: DigestKind, data: Seq<u8>) -> Seq<u8>;

#[verifier::external_type_specification]
#[verifier::external_body]
pub struct ExOpensslHasher(openssl::hash::Hasher);

/// One live, order-sensitive incremental hash accumulator.
pub struct Accumulator {
    algo: DigestKind,
    inner: openssl::hash::Hasher,
    fed: Ghost<Seq<u8>>,
}

impl Accumulator {
    /// The algorithm this accumulator runs.
    pub closed spec fn kind(self) -> DigestKind {
        self.algo
    }

    /// The bytes absorbed so far, in order.
    pub closed spec fn fed_bytes(self) -> Seq<u8> {
        self.fed@
    }
}

/// Relies on openssl::hash::Hasher::new and openssl::hash::MessageDigest's
/// algorithm selectors: a fresh EVP digest context for the chosen algorithm
/// has absorbed no bytes. `new` fails only on an internal OpenSSL failure,
/// never on the argument.
#[verifier::external_body]
fn openssl_hasher_new(kind: DigestKind) -> openssl::hash::Hasher {
    let md = match kind {
        DigestKind::Md5 => openssl::hash::MessageDigest::md5(),
        DigestKind::Sha1 => openssl::hash::MessageDigest::sha1(),
        DigestKind::Sha224 => openssl::hash::MessageDigest::sha224(),
        DigestKind::Sha256 => openssl::hash::MessageDigest::sha256(),
        DigestKind::Sha384 => openssl::hash::MessageDigest::sha384(),
        DigestKind::Sha512 => openssl::hash::MessageDigest::sha512(),
    };
    openssl::hash::Hasher::new(md).unwrap()
}

/// A fresh accumulator for `kind` that has absorbed nothing.
fn acc_new(kind: DigestKind) -> (a: Accumulator)
    ensures
        a.kind() == kind,
        a.fed_bytes() == Seq::<u8>::empty(),
{
    Accumulator { algo: kind, inner: openssl_hasher_new(kind), fed: Ghost(Seq::empty()) }
}

/// Relies on openssl::hash::Hasher::update: appends `data` to the bytes the
/// context has absorbed. Fails only on an internal OpenSSL failure.
#[verifier::external_body]
fn acc_update(a: &mut Accumulator, data: &[u8])
    ensures
        final(a).kind() == old(a).kind(),
        final(a).fed_bytes() == old(a).fed_bytes() + data@,
{
    a.inner.update(data).unwrap();
}

/// Relies on openssl::hash::Hasher::finish: returns the digest of exactly the
/// absorbed bytes, a function of the algorithm and those bytes alone, with the
/// algorithm's fixed output length. Fails only on an internal OpenSSL failure.
#[verifier::external_body]
fn acc_finish(a: Accumulator) -> (r: Vec<u8>)
    ensures
        r@ == spec_digest(a.kind(), a.fed_bytes()),
        r@.len() == digest_len(a.kind()),
{
    let mut a = a;
    a.inner.finish().unwrap().as_ref().to_vec()
}

/// Computes the digest of `data` under `kind` in one pass.
pub fn digest(kind: DigestKind, data: &[u8]) -> (r: Vec<u8>)
    ensures
        r@ == spec_digest(kind, data@),
        r@.len() == digest_len(kind),
{
    let mut a = acc_new(kind);
    acc_update(&mut a, data);
    proof {
        assert(a.fed_bytes() =~= data@);
    }
    acc_finish(a)
}

/// The terminal outcome of a verifier session.
#[derive(Clone, Copy, Debug, PartialEq, Eq, Structural)]
pub enum Verdict {
    Verified,
    Mismatch,
}

/// A well-formed expected value for `kind`: hex text of exactly the kind's
/// output length.
pub open spec fn digest_ok(kind: DigestKind, value: Seq<char>) -> bool {
    &&& is_hex_seq(encode_utf8(value))
    &&& encode_utf8(value).len() == 2 * digest_len(kind)
}

/// Every expected value in the mapping is well-formed for its kind.
pub open spec fn digests_well_formed(ds: Seq<(DigestKind, Seq<char>)>) -> bool {
    forall|i: int| 0 <= i < ds.len() ==> digest_ok((#[trigger] ds[i]).0, ds[i].1)
}

/// The expected digests with each hex value decoded to its bytes.
pub open spec fn decoded_entries(ds: Seq<(DigestKind, Seq<char>)>) -> Seq<(DigestKind, Seq<u8>)> {
    ds.map_values(|p: (DigestKind, Seq<char>)| (p.0, hex_decode_seq(encode_utf8(p.1))))
}

/// The character-level view of a list of expected digest strings.
pub open spec fn digests_view(ds: Seq<(DigestKind, String)>) -> Seq<(DigestKind, Seq<char>)> {
    ds.map_values(|p: (DigestKind, String)| (p.0, p.1@))
}

/// Whether every entry's expected bytes equal the digest of `data`, from
/// entry `i` on.
pub open spec fn all_match_from(
    entries: Seq<(DigestKind, Seq<u8>)>,
    data: Seq<u8>,
    i: int,
) -> bool {
    forall|j: int| i <= j < entries.len() ==> spec_digest(
        (#[trigger] entries[j]).0,
        data,
    ) == entries[j].1
}

/// Whether every entry's expected bytes equal the digest of `data`.
pub open spec fn all_match(entries: Seq<(DigestKind, Seq<u8>)>, data: Seq<u8>) -> bool {
    all_match_from(entries, data, 0)
}

/// The verdict over a payload: the conjunction, over every present kind, of
/// "computed digest equals expected bytes". An empty mapping verifies
/// vacuously.
pub open spec fn verdict_of(entries: Seq<(DigestKind, Seq<u8>)>, data: Seq<u8>) -> Verdict {
    if all_match(entries, data) {
        Verdict::Verified
    } else {
        Verdict::Mismatch
    }
}

/// A verifier session: one accumulator per expected digest kind, each paired
/// with the decoded expected bytes, all fed the same stream.
pub struct Verifier {
    accs: Vec<(Accumulator, Vec<u8>)>,
    fed: Ghost<Seq<u8>>,
}

impl Verifier {
    /// The expected digests of this session: each kind with its decoded
    /// expected bytes.
    pub closed spec fn entries(self) -> Seq<(DigestKind, Seq<u8>)> {
        self.accs@.map_values(|p: (Accumulator, Vec<u8>)| (p.0.kind(), p.1@))
    }

    /// The bytes fed so far, in order.
    pub closed spec fn bytes_fed(self) -> Seq<u8> {
        self.fed@
    }

    /// Every accumulator has absorbed exactly the session's stream, and every
    /// expected value has its kind's length.
    pub closed spec fn wf(self) -> bool {
        forall|i: int| 0 <= i < self.accs@.len() ==> {
            &&& (#[trigger] self.accs@[i]).0.fed_bytes() == self.fed@
            &&& self.accs@[i].1@.len() == digest_len(self.accs@[i].0.kind())
        }
    }

    /// Opens a session for the given expected digests, decoding each hex
    /// value up front: a malformed value is rejected here, before any payload
    /// byte is consumed. An empty mapping arms the session to pass vacuously.
    pub fn begin(expected: &Vec<(DigestKind, String)>) -> (r: Result<Verifier, Error>)
        ensures
            r is Ok <==> digests_well_formed(digests_view(expected@)),
            r matches Ok(h) ==> {
                &&& h.wf()
                &&& h.bytes_fed() == Seq::<u8>::empty()
                &&& h.entries() == decoded_entries(digests_view(expected@))
            },
            r is Err ==> r == Err::<Verifier, Error>(Error::MalformedDigest),
    {
        let n = expected.len();
        let mut accs: Vec<(Accumulator, Vec<u8>)> = Vec::with_capacity(n);
        let mut i: usize = 0;
        while i < n
            invariant
                n == expected@.len(),
                i <= n,
                accs@.len() == i,
                forall|j: int| 0 <= j < i ==> digest_ok(
                    (#[trigger] expected@[j]).0,
                    expected@[j].1@,
                ),
                forall|j: int| 0 <= j < i ==> {
                    &&& (#[trigger] accs@[j]).0.kind() == expected@[j].0
                    &&& accs@[j].0.fed_bytes() == Seq::<u8>::empty()
                    &&& accs@[j].1@ == hex_decode_seq(encode_utf8(expected@[j].1@))
                    &&& accs@[j].1@.len() == digest_len(expected@[j].0)
                },
            decreases n - i,
        {
            let p = &expected[i];
            let kind = p.0;
            let value = p.1.as_str().as_bytes();
            proof {
                assert(value@ == encode_utf8(p.1@));
            }
            let decoded = match hex_decode(value) {
                Some(d) => d,
                None => {
                    proof {
                        assert(!digest_ok(digests_view(expected@)[i as int].0,
                            digests_view(expected@)[i as int].1));
                    }
                    return Err(Error::MalformedDigest);
                },
            };
            if decoded.len() != digest_len_bytes(kind) {
                proof {
                    assert(!digest_ok(digests_view(expected@)[i as int].0,
                        digests_view(expected@)[i as int].1));
                }
                return Err(Error::MalformedDigest);
            }
            let acc = acc_new(kind);
            accs.push((acc, decoded));
            i += 1;
        }
        let h = Verifier { accs, fed: Ghost(Seq::empty()) };
        proof {
            assert(h.entries() =~= decoded_entries(digests_view(expected@)));
        }
        Ok(h)
    }

    /// Feeds one chunk to every live accumulator, in the same order for every
    /// accumulator. May be called any number of times, with any chunking:
    /// only the concatenation of all fed chunks determines the verdict.
    pub fn update(&mut self, chunk: &[u8])
        requires
            old(self).wf(),
        ensures
            final(self).wf(),
            final(self).entries() == old(self).entries(),
            final(self).bytes_fed() == old(self).bytes_fed() + chunk@,
    {
        let n = self.accs.len();
        let mut i: usize = 0;
        while i < n
            invariant
                n == self.accs@.len(),
                i <= n,
                self.fed@ == old(self).fed@,
                forall|j: int| 0 <= j < n ==> {
                    &&& (#[trigger] self.accs@[j]).0.kind() == old(self).accs@[j].0.kind()
                    &&& self.accs@[j].1 == old(self).accs@[j].1
                },
                forall|j: int| 0 <= j < i ==> (#[trigger] self.accs@[j]).0.fed_bytes()
                    == old(self).fed@ + chunk@,
                forall|j: int| i <= j < n ==> (#[trigger] self.accs@[j]).0.fed_bytes()
                    == old(self).fed@,
            decreases n - i,
        {
            let ghost pre = self.accs@;
            let (mut acc, exp) = self.accs.remove(i);
            acc_update(&mut acc, chunk);
            self.accs.insert(i, (acc, exp));
            proof {
                assert(self.accs@ =~= pre.update(i as int, (acc, exp)));
            }
            i += 1;
        }
        self.fed = Ghost(self.fed@ + chunk@);
        proof {
            assert(self.entries() =~= old(self).entries());
        }
    }

    /// Finalizes every accumulator and returns the verdict. The result is
    /// `Verified` when every expected digest matches the computed one, and
    /// `Mismatch` otherwise. Consumes the session.
    pub fn finish(self) -> (r: Verdict)
        requires
            self.wf(),
        ensures
            r == verdict_of(self.entries(), self.bytes_fed()),
    {
        let ghost entries = self.entries();
        let ghost data = self.fed@;
        let mut accs = self.accs;
        let mut ok = true;
        proof {
            assert(accs@ =~= self.accs@.take(accs@.len() as int));
        }
        while accs.len() > 0
            invariant
                accs@.len() <= self.accs@.len(),
                accs@ == self.accs@.take(accs@.len() as int),
                entries == self.entries(),
                data == self.fed@,
                self.wf(),
                ok <==> all_match_from(entries, data, accs@.len() as int),
            decreases accs@.len(),
        {
            let ghost k = accs@.len() as int;
            let pair = accs.pop().unwrap();
            let d = acc_finish(pair.0);
            proof {
                assert(self.accs@.take(k)[k - 1] == self.accs@[k - 1]);
                assert(accs@ =~= self.accs@.take(k - 1));
                assert(entries[k - 1] == (self.accs@[k - 1].0.kind(), self.accs@[k - 1].1@));
            }
            let m = bytes_eq(d.as_slice(), pair.1.as_slice());
            ok = ok && m;
            proof {
                assert(all_match_from(entries, data, k - 1) <==> (m
                    && all_match_from(entries, data, k)));
            }
        }
        if ok {
            Verdict::Verified
        } else {
            Verdict::Mismatch
        }
    }
}

/// With no expected digests there is no integrity claim to check: every
/// payload is vacuously verified, by explicit policy.
pub proof fn lemma_vacuous_acceptance(data: Seq<u8>)
    ensures
        verdict_of(Seq::<(DigestKind, Seq<u8>)>::empty(), data) == Verdict::Verified,
{
}

/// If any one present kind mismatches, the overall verdict is `Mismatch`,
/// however many other kinds match: the verdict is a conjunction.
pub proof fn lemma_conjunction(entries: Seq<(DigestKind, Seq<u8>)>, data: Seq<u8>, i: int)
    requires
        0 <= i < entries.len(),
        spec_digest(entries[i].0, data) != entries[i].1,
    ensures
        verdict_of(entries, data) == Verdict::Mismatch,
{
}

/// If every expected value is the digest of the payload, the verdict is
/// `Verified`.
pub proof fn lemma_matching_digests_verify(entries: Seq<(DigestKind, Seq<u8>)>, data: Seq<u8>)
    requires
        forall|i: int| 0 <= i < entries.len() ==> (#[trigger] entries[i]).1 == spec_digest(
            entries[i].0,
            data,
        ),
    ensures
        verdict_of(entries, data) == Verdict::Verified,
{
}

/// Round trip: the correctly computed digest of a payload, hex-encoded, is a
/// well-formed expected value of the kind's length, decodes back to the
/// digest, and a session expecting it over that payload verifies.
pub proof fn lemma_round_trip(kind: DigestKind, dg: Seq<u8>, data: Seq<u8>)
    requires
        dg == spec_digest(kind, data),
        dg.len() == digest_len(kind),
    ensures
        is_hex_seq(hex_encode_seq(dg)),
        hex_encode_seq(dg).len() == 2 * digest_len(kind),
        hex_decode_seq(hex_encode_seq(dg)) == dg,
        verdict_of(seq![(kind, dg)], data) == Verdict::Verified,
{
    lemma_hex_encode_is_hex(dg);
    lemma_hex_encode_len(dg);
    lemma_hex_round_trip(dg);
    assert(seq![(kind, dg)][0] == (kind, dg));
}

/// The bytes a session has absorbed after feeding a list of chunks one by
/// one, in order.
pub open spec fn fed_after(chunks: Seq<Seq<u8>>) -> Seq<u8>
    decreases chunks.len(),
{
    if chunks.len() == 0 {
        Seq::empty()
    } else {
        fed_after(chunks.drop_last()) + chunks.last()
    }
}

/// Chunk invariance: feeding a payload in any chunking absorbs exactly the
/// concatenation of the chunks, so the verdict over chunked input equals the
/// verdict over the payload fed whole.
pub proof fn lemma_chunk_invariance(
    entries: Seq<(DigestKind, Seq<u8>)>,
    chunks: Seq<Seq<u8>>,
    whole: Seq<u8>,
)
    requires
        chunks.flatten() == whole,
    ensures
        fed_after(chunks) == whole,
        verdict_of(entries, fed_after(chunks)) == verdict_of(entries, whole),
{
    lemma_fed_after_flatten(chunks);
}

/// Absorbing chunks one by one accumulates their concatenation.
pub proof fn lemma_fed_after_flatten(chunks: Seq<Seq<u8>>)
    ensures
        fed_after(chunks) == chunks.flatten(),
    decreases chunks.len(),
{
    if chunks.len() == 0 {
        assert(fed_after(chunks) =~= chunks.flatten());
    } else {
        lemma_fed_after_flatten(chunks.drop_last());
        chunks.lemma_flatten_and_flatten_alt_are_equivalent();
        chunks.drop_last().lemma_flatten_and_flatten_alt_are_equivalent();
        assert(chunks.flatten_alt() == chunks.drop_last().flatten_alt() + chunks.last());
    }
}

} // verus!
