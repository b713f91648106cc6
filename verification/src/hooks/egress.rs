//! Fail-closed privacy check on everything that leaves the host.
//!
//! The decision rests on the tier of the data and the name of the destination alone. What the
//! data says plays no part in it, so no wording can talk its way out.
use vstd::prelude::*;
use crate::text;
use crate::types::{BastionError, PrivacyTier};

verus! {

/// Data of this tier may go to this destination: anything cleared for the cloud may go
/// anywhere, host-only data to the local provider alone, and unclassified data nowhere.
pub open spec fn may_leave(tier: Option<PrivacyTier>, provider_name: Seq<char>) -> bool {
    match tier {
        Some(PrivacyTier::CloudOk) => true,
        Some(PrivacyTier::LocalOnly) => provider_name == "ollama"@,
        None => false,
    }
}

/// Whether data of this tier may go to this destination.
pub fn check_egress(tier: Option<PrivacyTier>, provider_name: &str) -> (r: Result<
    (),
    BastionError,
>)
    ensures
        r is Ok <==> may_leave(tier, provider_name@),
        r is Err ==> r->Err_0 == BastionError::PrivacyEgressBlocked,
{
    match tier {
        Some(PrivacyTier::CloudOk) => Ok(()),
        Some(PrivacyTier::LocalOnly) => if text::same(provider_name, "ollama") {
            Ok(())
        } else {
            Err(BastionError::PrivacyEgressBlocked)
        },
        None => Err(BastionError::PrivacyEgressBlocked),
    }
}

/// The privacy check in the shape of a hook that runs before a provider is called.
pub struct EgressHook;

impl EgressHook {
    /// Lets a provider call proceed only where its data may go there. The payload is not looked
    /// at.
    pub fn before_provider(
        &self,
        system: &str,
        user: &str,
        provider_name: &str,
        tier: PrivacyTier,
    ) -> (r: Result<(), BastionError>)
        ensures
            r is Ok <==> may_leave(Some(tier), provider_name@),
            r is Err ==> r->Err_0 == BastionError::PrivacyEgressBlocked,
    {
        check_egress(Some(tier), provider_name)
    }
}

/// Host-only data reaches no destination but the local provider.
pub proof fn local_data_stays_local(provider_name: Seq<char>)
    ensures
        may_leave(Some(PrivacyTier::LocalOnly), provider_name) <==> provider_name == "ollama"@,
{
}

/// Data without a classification reaches no destination at all.
pub proof fn unclassified_data_goes_nowhere(provider_name: Seq<char>)
    ensures
        !may_leave(None, provider_name),
{
}

/// A destination that may have host-only data may have everything that is classified: the
/// local provider is never refused for being local.
pub proof fn clearing_data_only_widens(tier: PrivacyTier, provider_name: Seq<char>)
    ensures
        may_leave(Some(tier), provider_name) ==> may_leave(
            Some(PrivacyTier::CloudOk),
            provider_name,
        ),
        may_leave(Some(tier), "ollama"@),
{
}

/// Data that is cleared for the cloud goes anywhere, host-only data to the local provider, and data
/// without a tier nowhere; what may not go is refused for that reason.
pub proof fn what_may_go_where(
    tier: Option<PrivacyTier>,
    provider_name: &str,
    r: Result<(), BastionError>,
)
    requires
        call_ensures(check_egress, (tier, provider_name), r),
    ensures
        r is Ok <==> tier == Some(PrivacyTier::CloudOk) || (tier == Some(PrivacyTier::LocalOnly)
            && provider_name@ == "ollama"@),
        r matches Err(e) ==> e == BastionError::PrivacyEgressBlocked,
{
}

} // verus!
