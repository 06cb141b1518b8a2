//! The Fiat-Shamir transcript: what a Merlin transcript is to the contracts,
//! and the labelled messages and challenges of the constraint-system protocol.

use crate::curve::{point_bytes, scalar_bytes, Fr, G1Affine};
use crate::errors::R1CSError;
use crate::field::reduce;
use crate::limbs::{le_bytes8, le_value};
use vstd::prelude::*;
use vstd::string::StringSliceAdditionalSpecFns;

verus! {

/// Merlin's transcript, declared so that the library's transcript can hold one.
#[verifier::external_type_specification]
#[verifier::external_body]
pub struct ExTranscript(merlin::Transcript);

/// One step in the life of a transcript.
pub enum TranscriptEvent {
    /// A labelled message was absorbed.
    Message { label: Seq<u8>, data: Seq<u8> },
    /// Challenge bytes were drawn under a label.
    Challenge { label: Seq<u8>, len: nat },
}

/// A Merlin transcript together with the log of what it has absorbed. The
/// log is ghost and stands beside Merlin's state, which is a running hash
/// and keeps no list. Nothing writes the log but the five functions below
/// that call Merlin; each says which event its call adds.
pub struct ProofTranscript {
    inner: merlin::Transcript,
    log: Ghost<Seq<TranscriptEvent>>,
}

/// The bytes that a transcript with the given past hands out when `len`
/// challenge bytes are drawn under `label`: Merlin derives them from the
/// past and the label alone.
pub uninterp spec fn challenge_bytes_of(log: Seq<TranscriptEvent>, label: Seq<u8>, len: nat) -> Seq<u8>;

/// The log after a message.
pub open spec fn with_message(log: Seq<TranscriptEvent>, label: Seq<u8>, data: Seq<u8>) -> Seq<
    TranscriptEvent,
> {
    log.push(TranscriptEvent::Message { label, data })
}

/// The log after a scalar challenge, which draws 64 bytes.
pub open spec fn with_challenge(log: Seq<TranscriptEvent>, label: Seq<u8>) -> Seq<TranscriptEvent> {
    log.push(TranscriptEvent::Challenge { label, len: 64 })
}

/// The scalar drawn under `label` by a transcript with the given past.
pub open spec fn challenge_scalar_of(log: Seq<TranscriptEvent>, label: Seq<u8>) -> int {
    reduce(le_value(challenge_bytes_of(log, label, 64)) as int)
}

/// The log after a scalar was appended.
pub open spec fn with_scalar(log: Seq<TranscriptEvent>, label: Seq<u8>, v: int) -> Seq<TranscriptEvent> {
    with_message(log, label, scalar_bytes(v))
}

/// The log after a point was appended.
pub open spec fn with_point(log: Seq<TranscriptEvent>, label: Seq<u8>, p: crate::curve::PointModel) -> Seq<
    TranscriptEvent,
> {
    with_message(log, label, point_bytes(p))
}

/// The log after a 64-bit number was appended.
pub open spec fn with_u64(log: Seq<TranscriptEvent>, label: Seq<u8>, x: u64) -> Seq<TranscriptEvent> {
    with_message(log, label, le_bytes8(x as nat))
}

/// The log of a fresh transcript: Merlin opens with its label as a domain separator.
pub open spec fn fresh_log(label: Seq<u8>) -> Seq<TranscriptEvent> {
    with_message(Seq::empty(), "dom-sep".spec_bytes(), label)
}

impl ProofTranscript {
    /// Everything the transcript has absorbed since it was created, oldest first.
    pub closed spec fn log(&self) -> Seq<TranscriptEvent> {
        self.log@
    }

    /// `merlin::Transcript::new`: a transcript that has absorbed its label as
    /// a domain separator and nothing else.
    #[verifier::external_body]
    fn merlin_new(label: &'static [u8]) -> (t: ProofTranscript)
        requires
            label@.len() <= u32::MAX,
        ensures
            t.log() == fresh_log(label@),
    {
        ProofTranscript { inner: merlin::Transcript::new(label), log: Ghost(fresh_log(label@)) }
    }

    /// `merlin::Transcript::append_message`: the message is absorbed under its label.
    #[verifier::external_body]
    fn merlin_append_message(&mut self, label: &'static [u8], message: &[u8])
        requires
            message@.len() <= u32::MAX,
        ensures
            final(self).log() == with_message(old(self).log(), label@, message@),
    {
        self.inner.append_message(label, message)
    }

    /// `merlin::Transcript::append_u64`: the number is absorbed as its eight
    /// little-endian bytes.
    #[verifier::external_body]
    fn merlin_append_u64(&mut self, label: &'static [u8], x: u64)
        ensures
            final(self).log() == with_u64(old(self).log(), label@, x),
    {
        self.inner.append_u64(label, x)
    }

    /// `merlin::Transcript::challenge_bytes` for 64 bytes: the bytes depend
    /// on what was absorbed before and on the label alone, and the draw is
    /// absorbed in its turn.
    #[verifier::external_body]
    fn merlin_challenge_bytes(&mut self, label: &'static [u8]) -> (out: [u8; 64])
        ensures
            out@ == challenge_bytes_of(old(self).log(), label@, 64),
            final(self).log() == with_challenge(old(self).log(), label@),
    {
        let mut out = [0u8; 64];
        self.inner.challenge_bytes(label, &mut out);
        out
    }

    /// `Clone::clone` of a Merlin transcript: a second transcript that has
    /// absorbed the same.
    #[verifier::external_body]
    fn merlin_clone(&self) -> (c: ProofTranscript)
        ensures
            c.log() == self.log(),
    {
        ProofTranscript { inner: self.inner.clone(), log: Ghost(self.log@) }
    }
}

/// A fresh transcript under `label`.
pub fn new_transcript(label: &'static [u8]) -> (t: ProofTranscript)
    requires
        label@.len() <= u32::MAX,
    ensures
        t.log() == fresh_log(label@),
{
    ProofTranscript::merlin_new(label)
}

/// A second transcript with the past of `t`; drawing from it leaves `t` as it is.
pub fn fork(t: &ProofTranscript) -> (c: ProofTranscript)
    ensures
        c.log() == t.log(),
{
    t.merlin_clone()
}

/// Appends a message under `label`.
pub fn append_message(t: &mut ProofTranscript, label: &'static [u8], message: &[u8])
    requires
        message@.len() <= u32::MAX,
    ensures
        final(t).log() == with_message(old(t).log(), label@, message@),
{
    t.merlin_append_message(label, message);
}

/// Draws 64 challenge bytes under `label`.
pub fn challenge_bytes(t: &mut ProofTranscript, label: &'static [u8]) -> (out: [u8; 64])
    ensures
        out@ == challenge_bytes_of(old(t).log(), label@, 64),
        final(t).log() == with_challenge(old(t).log(), label@),
{
    t.merlin_challenge_bytes(label)
}

/// Opens the constraint-system protocol.
pub fn r1cs_domain_sep(t: &mut ProofTranscript)
    ensures
        final(t).log() == with_message(
            old(t).log(),
            "dom-sep".spec_bytes(),
            "r1cs v1".spec_bytes(),
        ),
{
    let message = "r1cs v1".as_bytes();
    proof {
        lemma_short_strings();
    }
    t.merlin_append_message("dom-sep".as_bytes(), message);
}

/// Marks a circuit without randomized constraints.
pub fn r1cs_1phase_domain_sep(t: &mut ProofTranscript)
    ensures
        final(t).log() == with_message(
            old(t).log(),
            "dom-sep".spec_bytes(),
            "r1cs-1phase".spec_bytes(),
        ),
{
    let message = "r1cs-1phase".as_bytes();
    proof {
        lemma_short_strings();
    }
    t.merlin_append_message("dom-sep".as_bytes(), message);
}

/// Marks a circuit with randomized constraints.
pub fn r1cs_2phase_domain_sep(t: &mut ProofTranscript)
    ensures
        final(t).log() == with_message(
            old(t).log(),
            "dom-sep".spec_bytes(),
            "r1cs-2phase".spec_bytes(),
        ),
{
    let message = "r1cs-2phase".as_bytes();
    proof {
        lemma_short_strings();
    }
    t.merlin_append_message("dom-sep".as_bytes(), message);
}

/// The log after the inner-product argument over `n` entries was opened.
pub open spec fn with_innerproduct_domain_sep(log: Seq<TranscriptEvent>, n: u64) -> Seq<TranscriptEvent> {
    with_u64(with_message(log, "dom-sep".spec_bytes(), "ipp v1".spec_bytes()), "n".spec_bytes(), n)
}

/// Opens the inner-product argument over `n` entries.
pub fn innerproduct_domain_sep(t: &mut ProofTranscript, n: u64)
    ensures
        final(t).log() == with_innerproduct_domain_sep(old(t).log(), n),
{
    let message = "ipp v1".as_bytes();
    proof {
        lemma_short_strings();
    }
    t.merlin_append_message("dom-sep".as_bytes(), message);
    t.merlin_append_u64("n".as_bytes(), n);
}

/// Appends a 64-bit number under `label`.
pub fn append_u64(t: &mut ProofTranscript, label: &'static [u8], x: u64)
    ensures
        final(t).log() == with_u64(old(t).log(), label@, x),
{
    t.merlin_append_u64(label, x);
}

/// Appends a scalar under `label`.
pub fn append_scalar(t: &mut ProofTranscript, label: &'static [u8], scalar: &Fr)
    ensures
        final(t).log() == with_scalar(old(t).log(), label@, scalar@),
{
    let mut bytes: Vec<u8> = Vec::new();
    scalar.append_bytes(&mut bytes);
    assert(bytes@ =~= scalar_bytes(scalar@));
    assert(scalar_bytes(scalar@).len() == 32) by {
        crate::limbs::lemma_le_bytes32_len(scalar@ as nat);
    }
    t.merlin_append_message(label, bytes.as_slice());
}

/// Appends a point under `label`.
pub fn append_point(t: &mut ProofTranscript, label: &'static [u8], point: &G1Affine)
    ensures
        final(t).log() == with_point(old(t).log(), label@, point@),
{
    let mut bytes: Vec<u8> = Vec::new();
    point.append_bytes(&mut bytes);
    assert(bytes@ =~= point_bytes(point@));
    assert(point_bytes(point@).len() == 65) by {
        crate::limbs::lemma_le_bytes32_len(point@.x as nat);
        crate::limbs::lemma_le_bytes32_len(point@.y as nat);
    }
    t.merlin_append_message(label, bytes.as_slice());
}

/// Appends a point under `label` unless it is the identity, which is refused.
pub fn validate_and_append_point(t: &mut ProofTranscript, label: &'static [u8], point: &G1Affine) -> (r: Result<
    (),
    R1CSError,
>)
    ensures
        point@.infinity ==> r == Err::<(), R1CSError>(R1CSError::VerificationError) && final(t).log() == old(t).log(),
        !point@.infinity ==> r.is_ok() && final(t).log() == with_point(
            old(t).log(),
            label@,
            point@,
        ),
{
    if point.is_identity() {
        Err(R1CSError::VerificationError)
    } else {
        append_point(t, label, point);
        Ok(())
    }
}

/// Draws a scalar challenge under `label`.
pub fn challenge_scalar(t: &mut ProofTranscript, label: &'static [u8]) -> (r: Fr)
    ensures
        r@ == challenge_scalar_of(old(t).log(), label@),
        final(t).log() == with_challenge(old(t).log(), label@),
{
    let bytes = challenge_bytes(t, label);
    Fr::from_wide_bytes(&bytes)
}

/// The domain separators are short enough for a Merlin length prefix.
proof fn lemma_short_strings()
    ensures
        "r1cs v1".spec_bytes().len() <= u32::MAX,
        "r1cs-1phase".spec_bytes().len() <= u32::MAX,
        "r1cs-2phase".spec_bytes().len() <= u32::MAX,
        "ipp v1".spec_bytes().len() <= u32::MAX,
{
    broadcast use vstd::string::is_ascii_spec_bytes;

    reveal_strlit("r1cs v1");
    reveal_strlit("r1cs-1phase");
    reveal_strlit("r1cs-2phase");
    reveal_strlit("ipp v1");
    assert(vstd::string::is_ascii("r1cs v1"));
    assert(vstd::string::is_ascii("r1cs-1phase"));
    assert(vstd::string::is_ascii("r1cs-2phase"));
    assert(vstd::string::is_ascii("ipp v1"));
}

} // verus!
