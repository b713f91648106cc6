//! Layered verification: cheap checks first, and the first one that decides has the word.
use vstd::prelude::*;
use crate::task::contract::{Verdict, VerdictProvenance, VerificationStatus};
use crate::task::{AttemptId, EvidenceId};

verus! {

/// The verdicts of the layers that were asked so far, in the order in which they are asked.
pub struct LayeredVerifier {
    abstained: Verdict,
}

/// What a layer's verdict leads to.
#[derive(Debug)]
pub enum LayerStep {
    /// It decides; no further layer is asked.
    Decided(Verdict),
    /// It abstains; the next layer is asked.
    Abstained,
}

impl LayeredVerifier {
    /// The verdict to report where every further layer abstains.
    pub closed spec fn standing(self) -> Verdict {
        self.abstained
    }

    /// Before any layer was asked about an attempt: nothing is known of it.
    pub fn new(attempt: &AttemptId) -> (r: Self)
        ensures
            r.standing().attempt == *attempt,
            r.standing().status == VerificationStatus::Unverified,
            r.standing().provenance == VerdictProvenance::Deterministic,
            r.standing().evidence@ == Seq::<EvidenceId>::empty(),
            r.standing().detail matches Some(text) && text@ == "no verifier reached a decision"@,
    {
        LayeredVerifier {
            abstained: Verdict {
                attempt: attempt.clone(),
                status: VerificationStatus::Unverified,
                provenance: VerdictProvenance::Deterministic,
                evidence: Vec::new(),
                detail: Some("no verifier reached a decision".to_owned()),
            },
        }
    }

    /// Takes the verdict of the next layer.
    pub fn hear(&mut self, verdict: Verdict) -> (r: LayerStep)
        ensures
            if verdict.status == VerificationStatus::Unverified {
                r == LayerStep::Abstained && final(self).standing() == verdict
            } else {
                r == LayerStep::Decided(verdict) && *final(self) == *old(self)
            },
            forall|rest: Seq<Verdict>| #[trigger]
                layered(old(self).standing(), seq![verdict] + rest) == match r {
                    LayerStep::Decided(v) => v,
                    LayerStep::Abstained => layered(final(self).standing(), rest),
                },
    {
        proof {
            assert forall|rest: Seq<Verdict>|
                (#[trigger] (seq![verdict] + rest))[0] == verdict && (seq![verdict] + rest).skip(1)
                    == rest by {
                assert((seq![verdict] + rest).skip(1) =~= rest);
            }
        }
        if verdict.status != VerificationStatus::Unverified {
            LayerStep::Decided(verdict)
        } else {
            self.abstained = verdict;
            LayerStep::Abstained
        }
    }

    /// The verdict where no layer is left.
    pub fn conclude(self) -> (r: Verdict)
        ensures
            r == self.standing(),
            r == layered(self.standing(), Seq::empty()),
    {
        self.abstained
    }
}

/// What layers with these verdicts conclude, where `standing` is what holds before the first.
pub open spec fn layered(standing: Verdict, verdicts: Seq<Verdict>) -> Verdict
    decreases verdicts.len(),
{
    if verdicts.len() == 0 {
        standing
    } else if verdicts[0].status != VerificationStatus::Unverified {
        verdicts[0]
    } else {
        layered(verdicts[0], verdicts.skip(1))
    }
}

/// The first layer that decides has the word, whatever the later ones would say.
pub proof fn the_first_decision_stands(standing: Verdict, verdicts: Seq<Verdict>, n: int)
    requires
        0 <= n < verdicts.len(),
        verdicts[n].status != VerificationStatus::Unverified,
        forall|i: int|
            0 <= i < n ==> (#[trigger] verdicts[i]).status == VerificationStatus::Unverified,
    ensures
        layered(standing, verdicts) == verdicts[n],
    decreases verdicts.len(),
{
    if n > 0 {
        let rest = verdicts.skip(1);
        assert(verdicts[0].status == VerificationStatus::Unverified);
        assert forall|i: int| 0 <= i < n - 1 implies (#[trigger] rest[i]).status
            == VerificationStatus::Unverified by {
            assert(rest[i] == verdicts[i + 1]);
        }
        assert(rest[n - 1] == verdicts[n]);
        the_first_decision_stands(verdicts[0], rest, n - 1);
    }
}

/// Where every layer abstains, the conclusion abstains: success is never made up.
pub proof fn success_is_never_made_up(standing: Verdict, verdicts: Seq<Verdict>)
    requires
        standing.status == VerificationStatus::Unverified,
        forall|i: int|
            0 <= i < verdicts.len() ==> (#[trigger] verdicts[i]).status
                == VerificationStatus::Unverified,
    ensures
        layered(standing, verdicts).status == VerificationStatus::Unverified,
    decreases verdicts.len(),
{
    if verdicts.len() > 0 {
        let rest = verdicts.skip(1);
        assert forall|i: int| 0 <= i < rest.len() implies (#[trigger] rest[i]).status
            == VerificationStatus::Unverified by {
            assert(rest[i] == verdicts[i + 1]);
        }
        success_is_never_made_up(verdicts[0], rest);
    }
}

/// Where every layer abstains, the last of them is quoted, and without layers what held before.
pub proof fn the_last_abstention_is_quoted(standing: Verdict, verdicts: Seq<Verdict>)
    requires
        forall|i: int|
            0 <= i < verdicts.len() ==> (#[trigger] verdicts[i]).status
                == VerificationStatus::Unverified,
    ensures
        layered(standing, verdicts) == if verdicts.len() == 0 {
            standing
        } else {
            verdicts.last()
        },
    decreases verdicts.len(),
{
    if verdicts.len() > 0 {
        let rest = verdicts.skip(1);
        assert forall|i: int| 0 <= i < rest.len() implies (#[trigger] rest[i]).status
            == VerificationStatus::Unverified by {
            assert(rest[i] == verdicts[i + 1]);
        }
        assert(verdicts[0].status == VerificationStatus::Unverified);
        the_last_abstention_is_quoted(verdicts[0], rest);
    }
}

} // verus!
