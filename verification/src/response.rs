//! The check of a response's outputs against their output ids.
//!
//! Each output of a transition is announced by an output id that commits to
//! it. The hashing layer derives, from the output and the transition view key,
//! the digest that the id's variant calls for; the verifier here decides
//! whether every digest is the one its id expects.

use vstd::prelude::*;
use crate::field::Field;

verus! {

/// The public announcement of one output.
#[derive(Clone, Copy, Debug, PartialEq, Eq, Structural)]
pub enum OutputID {
    /// The hash of a constant output.
    Constant(Field),
    /// The hash of a public output.
    Public(Field),
    /// The index and the commitment of a private output.
    Private(Field, Field),
    /// The index, commitment, nonce and checksum of a record output.
    Record(Field, Field, Field, Field),
}

/// What kind of value an output is.
#[derive(Clone, Copy, Debug, PartialEq, Eq, Structural)]
pub enum Output {
    Plaintext,
    Record,
}

/// What the hashing layer has to derive from an output so that it can be held
/// against its id. The randomizer of a commitment or a record is the hash to
/// scalar of the transition view key followed by `index`.
#[derive(Clone, Copy, Debug, PartialEq, Eq, Structural)]
pub enum Derivation {
    /// The hash of the output's bits.
    Hash,
    /// The commitment to the output's bits under the randomizer.
    Commitment { index: Field },
    /// The record's commitment under the randomizer, the x-coordinate of the
    /// generator times the randomizer, and the hash of the record encrypted
    /// under the randomizer.
    Record { index: Field },
}

/// What the hashing layer derived from an output.
#[derive(Clone, Copy, Debug, PartialEq, Eq, Structural)]
pub enum Digest {
    Hash(Field),
    Commitment(Field),
    Record { commitment: Field, nonce: Field, checksum: Field },
}

impl OutputID {
    /// The derivation that this id is checked against.
    pub open spec fn spec_derivation(self) -> Derivation {
        match self {
            OutputID::Constant(_) => Derivation::Hash,
            OutputID::Public(_) => Derivation::Hash,
            OutputID::Private(index, _) => Derivation::Commitment { index },
            OutputID::Record(index, _, _, _) => Derivation::Record { index },
        }
    }

    /// Whether `digest` is the digest that this id expects. A digest of another
    /// kind than the id calls for never is.
    pub open spec fn accepts(self, digest: Digest) -> bool {
        match self {
            OutputID::Constant(expected_hash) => digest == Digest::Hash(expected_hash),
            OutputID::Public(expected_hash) => digest == Digest::Hash(expected_hash),
            OutputID::Private(_, expected_cm) => digest == Digest::Commitment(expected_cm),
            OutputID::Record(_, expected_cm, expected_nonce, expected_checksum) => digest == (
            Digest::Record {
                commitment: expected_cm,
                nonce: expected_nonce,
                checksum: expected_checksum,
            }),
        }
    }

    /// The id of the same variant and index as `self` that expects `digest`,
    /// where `digest` is of the kind that `self` calls for.
    pub open spec fn sealing(self, digest: Digest) -> Option<OutputID> {
        match (self, digest) {
            (OutputID::Constant(_), Digest::Hash(hash)) => Some(OutputID::Constant(hash)),
            (OutputID::Public(_), Digest::Hash(hash)) => Some(OutputID::Public(hash)),
            (OutputID::Private(index, _), Digest::Commitment(cm)) => Some(
                OutputID::Private(index, cm),
            ),
            (OutputID::Record(index, _, _, _), Digest::Record { commitment, nonce, checksum }) => Some(
                OutputID::Record(index, commitment, nonce, checksum),
            ),
            _ => None,
        }
    }

    /// Tells the hashing layer what to derive from the output that this id announces.
    pub fn derivation(&self) -> (d: Derivation)
        ensures
            d == self.spec_derivation(),
    {
        match self {
            OutputID::Constant(_) => Derivation::Hash,
            OutputID::Public(_) => Derivation::Hash,
            OutputID::Private(index, _) => Derivation::Commitment { index: *index },
            OutputID::Record(index, _, _, _) => Derivation::Record { index: *index },
        }
    }

    /// Decides whether `digest` is the one this id expects.
    pub fn matches(&self, digest: &Digest) -> (ok: bool)
        ensures
            ok == self.accepts(*digest),
    {
        match (self, digest) {
            (OutputID::Constant(expected_hash), Digest::Hash(hash)) => *hash == *expected_hash,
            (OutputID::Public(expected_hash), Digest::Hash(hash)) => *hash == *expected_hash,
            (OutputID::Private(_, expected_cm), Digest::Commitment(cm)) => *cm == *expected_cm,
            (
                OutputID::Record(_, expected_cm, expected_nonce, expected_checksum),
                Digest::Record { commitment, nonce, checksum },
            ) => *commitment == *expected_cm && *nonce == *expected_nonce && *checksum
                == *expected_checksum,
            _ => false,
        }
    }

    /// Builds the id of the same variant and index as `self` that commits to
    /// `digest`; `None` where `digest` is not of the kind that `self` calls for.
    pub fn seal(&self, digest: &Digest) -> (id: Option<OutputID>)
        ensures
            id == self.sealing(*digest),
            id matches Some(sealed) ==> sealed.accepts(*digest) && sealed.spec_derivation()
                == self.spec_derivation(),
    {
        match (self, digest) {
            (OutputID::Constant(_), Digest::Hash(hash)) => Some(OutputID::Constant(*hash)),
            (OutputID::Public(_), Digest::Hash(hash)) => Some(OutputID::Public(*hash)),
            (OutputID::Private(index, _), Digest::Commitment(cm)) => Some(
                OutputID::Private(*index, *cm),
            ),
            (OutputID::Record(index, _, _, _), Digest::Record { commitment, nonce, checksum }) => Some(
                OutputID::Record(*index, *commitment, *nonce, *checksum),
            ),
            _ => None,
        }
    }
}

/// Whether a record id is paired with an output that is no record.
pub open spec fn halting_pair(id: OutputID, output: Output) -> bool {
    id is Record && output is Plaintext
}

/// Whether every id accepts the digest at its position.
pub open spec fn all_accepted(ids: Seq<OutputID>, digests: Seq<Digest>) -> bool {
    forall|i: int| 0 <= i < ids.len() && i < digests.len() ==> (#[trigger] ids[i]).accepts(digests[i])
}

/// The outputs of a transition together with the ids that announce them.
#[derive(Debug, PartialEq, Eq)]
pub struct Response {
    output_ids: Vec<OutputID>,
    outputs: Vec<Output>,
}

impl Response {
    /// The output ids, in order.
    pub closed spec fn ids(&self) -> Seq<OutputID> {
        self.output_ids@
    }

    /// The kinds of the outputs, in order.
    pub closed spec fn kinds(&self) -> Seq<Output> {
        self.outputs@
    }

    /// There is one output for each id.
    pub open spec fn well_formed(&self) -> bool {
        self.ids().len() == self.kinds().len()
    }

    /// Whether some record id announces an output that is no record. Such a
    /// response cannot be verified at all.
    pub open spec fn halts(&self) -> bool {
        exists|i: int|
            0 <= i < self.ids().len() && i < self.kinds().len() && halting_pair(
                #[trigger] self.ids()[i],
                self.kinds()[i],
            )
    }

    /// Pairs the ids with the outputs; `None` unless there is one output for each id.
    pub fn new(output_ids: Vec<OutputID>, outputs: Vec<Output>) -> (response: Option<Response>)
        ensures
            response is Some <==> output_ids@.len() == outputs@.len(),
            response matches Some(r) ==> r.ids() == output_ids@ && r.kinds() == outputs@
                && r.well_formed(),
    {
        if output_ids.len() == outputs.len() {
            Some(Response { output_ids, outputs })
        } else {
            None
        }
    }

    /// The output ids.
    pub fn output_ids(&self) -> (ids: &Vec<OutputID>)
        ensures
            ids@ == self.ids(),
    {
        &self.output_ids
    }

    /// The kinds of the outputs.
    pub fn outputs(&self) -> (outputs: &Vec<Output>)
        ensures
            outputs@ == self.kinds(),
    {
        &self.outputs
    }

    /// Tells the hashing layer what to derive from each output, in order.
    /// `None` where the response halts: a record id announces an output that
    /// is no record.
    pub fn derivations(&self) -> (plan: Option<Vec<Derivation>>)
        requires
            self.well_formed(),
        ensures
            plan is None <==> self.halts(),
            plan matches Some(list) ==> list@.len() == self.ids().len() && forall|i: int|
                0 <= i < list@.len() ==> list@[i] == (#[trigger] self.ids()[i]).spec_derivation(),
    {
        let mut list: Vec<Derivation> = Vec::new();
        let mut i: usize = 0;
        while i < self.output_ids.len()
            invariant
                self.well_formed(),
                i <= self.output_ids@.len(),
                list@.len() == i,
                forall|k: int|
                    0 <= k < i ==> list@[k] == (#[trigger] self.output_ids@[k]).spec_derivation(),
                forall|k: int|
                    0 <= k < i ==> !halting_pair(#[trigger] self.output_ids@[k], self.outputs@[k]),
            decreases self.output_ids@.len() - i,
        {
            let id = &self.output_ids[i];
            let halting = match (id, &self.outputs[i]) {
                (OutputID::Record(_, _, _, _), Output::Plaintext) => true,
                _ => false,
            };
            if halting {
                assert(halting_pair(self.ids()[i as int], self.kinds()[i as int]));
                return None;
            }
            list.push(id.derivation());
            i += 1;
        }
        Some(list)
    }

    /// Returns `true` if the outputs match their output ids, and `false`
    /// otherwise: the conjunction, over all outputs, of whether the id accepts
    /// the digest that was derived from its output.
    ///
    /// `digests` holds, for each output in order, what the hashing layer
    /// derived on the demand of `derivations`. Where it does not hold one
    /// digest for each output, the outputs do not match.
    pub fn verify(&self, digests: &Vec<Digest>) -> (ok: bool)
        requires
            !self.halts(),
        ensures
            ok == (digests@.len() == self.ids().len() && all_accepted(self.ids(), digests@)),
    {
        if digests.len() != self.output_ids.len() {
            return false;
        }
        let mut ok = true;
        let mut i: usize = 0;
        while i < self.output_ids.len()
            invariant
                i <= self.output_ids@.len(),
                digests@.len() == self.output_ids@.len(),
                ok == all_accepted(self.output_ids@.take(i as int), digests@),
            decreases self.output_ids@.len() - i,
        {
            let accepted = self.output_ids[i].matches(&digests[i]);
            proof {
                let before = self.output_ids@.take(i as int);
                let after = self.output_ids@.take(i + 1);
                assert(after[i as int] == self.output_ids@[i as int]);
                assert forall|k: int| 0 <= k < before.len() implies before[k] == after[k] by {}
                if all_accepted(after, digests@) {
                    assert forall|k: int|
                        0 <= k < before.len() && k < digests@.len() implies (#[trigger] before[k]).accepts(
                        digests@[k],
                    ) by {
                        assert(after[k].accepts(digests@[k]));
                    }
                }
            }
            ok = ok && accepted;
            i += 1;
        }
        assert(self.output_ids@.take(i as int) == self.output_ids@);
        ok
    }
}

/// A response whose ids were sealed over the digests of its own outputs
/// verifies: where every id is the sealing of some id over the digest at its
/// position, every digest is accepted.
pub proof fn lemma_sealed_response_verifies(
    drafts: Seq<OutputID>,
    ids: Seq<OutputID>,
    digests: Seq<Digest>,
)
    requires
        drafts.len() == ids.len(),
        ids.len() == digests.len(),
        forall|i: int| 0 <= i < ids.len() ==> (#[trigger] drafts[i]).sealing(digests[i]) == Some(ids[i]),
    ensures
        all_accepted(ids, digests),
{
    assert forall|i: int| 0 <= i < ids.len() && i < digests.len() implies (#[trigger] ids[i]).accepts(
        digests[i],
    ) by {
        assert(drafts[i].sealing(digests[i]) == Some(ids[i]));
    }
}

/// Changing what one id of a verifying response expects (its hash, its
/// commitment, its nonce or its checksum) makes the response fail: an id
/// accepts one digest only, so two different ids of the same derivation cannot
/// both accept the digest at their position.
pub proof fn lemma_tampered_response_fails(
    ids: Seq<OutputID>,
    digests: Seq<Digest>,
    at: int,
    tampered: OutputID,
)
    requires
        ids.len() == digests.len(),
        0 <= at < ids.len(),
        all_accepted(ids, digests),
        tampered != ids[at],
        tampered.spec_derivation() == ids[at].spec_derivation(),
        tampered is Constant <==> ids[at] is Constant,
    ensures
        !all_accepted(ids.update(at, tampered), digests),
{
    assert(ids[at].accepts(digests[at]));
    let changed = ids.update(at, tampered);
    assert(changed[at] == tampered);
    assert(!tampered.accepts(digests[at]));
}

/// A digest that differs from the one an accepting id was given is refused:
/// deriving under another view key, which yields another commitment, fails
/// the private and record outputs.
pub proof fn lemma_accepts_one_digest(id: OutputID, first: Digest, second: Digest)
    requires
        id.accepts(first),
        second != first,
    ensures
        !id.accepts(second),
{
}

} // verus!
