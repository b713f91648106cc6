//! When the usual way fails: the plain call to the provider, and the switch to another one.
//!
//! A turn that no persona answers is answered by the provider itself, with the tools of the tool
//! source (see [`run_provider_fallback`](crate::agent::converse::run_provider_fallback)). A
//! provider that fails for good is replaced once, by the first model on the list that is another
//! one, if the data of the turn may go to it.
use vstd::prelude::*;
use crate::hooks::egress::{check_egress, may_leave};
use crate::provider::{CallConfig, NamedProvider, Provider};
use crate::text;
use crate::types::{BastionError, LlmResponse, Message, PrivacyTier};

verus! {

/// How many tokens the plain call may answer with.
pub const FALLBACK_MAX_TOKENS: u32 = 4096;

/// What goes with the plain call: the prompt of the turn and the tools of the tool source. The
/// call is not prepared where the data of the turn may not go to the provider.
pub fn fallback_config(
    system_prompt: String,
    tools: Vec<serde_json::Value>,
    provider_name: &str,
    tier: Option<PrivacyTier>,
) -> (r: Result<CallConfig, BastionError>)
    ensures
        if may_leave(tier, provider_name@) {
            r == Ok::<CallConfig, BastionError>(
                CallConfig {
                    system_prompt,
                    max_tokens: FALLBACK_MAX_TOKENS,
                    tools,
                    response_format: None,
                    tool_choice: None,
                    temperature_bits: None,
                },
            )
        } else {
            r == Err::<CallConfig, BastionError>(BastionError::PrivacyEgressBlocked)
        },
{
    match check_egress(tier, provider_name) {
        Ok(_) => Ok(
            CallConfig {
                system_prompt,
                max_tokens: FALLBACK_MAX_TOKENS,
                tools,
                response_format: None,
                tool_choice: None,
                temperature_bits: None,
            },
        ),
        Err(e) => Err(e),
    }
}

/// The model at this place of the list is the first that is another one.
pub open spec fn first_other(models: Seq<String>, current: Seq<char>, i: int) -> bool {
    &&& 0 <= i < models.len()
    &&& models[i]@ != current
    &&& forall|j: int| 0 <= j < i ==> #[trigger] models[j]@ == current
}

/// The model to try after the current one has failed: the first on the list that is another one.
/// Without such a model the failure is final.
pub fn fallback_candidate<'a>(models: &'a Vec<String>, current: &str) -> (r: Option<&'a str>)
    ensures
        match r {
            Some(model) => exists|i: int|
                first_other(models@, current@, i) && model@ == #[trigger] models@[i]@,
            None => forall|i: int| 0 <= i < models@.len() ==> #[trigger] models@[i]@ == current@,
        },
{
    let mut i: usize = 0;
    while i < models.len()
        invariant
            i <= models@.len(),
            forall|j: int| 0 <= j < i ==> #[trigger] models@[j]@ == current@,
        decreases models@.len() - i,
    {
        if !text::same(models[i].as_str(), current) {
            assert(first_other(models@, current@, i as int));
            return Some(models[i].as_str());
        }
        i = i + 1;
    }
    None
}

/// What comes of a model to try.
#[derive(Debug, PartialEq)]
pub enum SwitchDecision {
    /// It cannot be had: the failure of the first provider stands.
    KeepFailure,
    /// The data of the turn may not go to it: nothing is switched, and this is the error.
    Blocked(BastionError),
    /// It takes the place of the first, and is called.
    Switch,
}

/// Whether to switch to the provider of the model to try. The data of the turn is looked at before
/// anything is switched or called.
pub fn decide_switch(provider: Option<&str>, tier: Option<PrivacyTier>) -> (r: SwitchDecision)
    ensures
        r == match provider {
            None => SwitchDecision::KeepFailure,
            Some(name) => if may_leave(tier, name@) {
                SwitchDecision::Switch
            } else {
                SwitchDecision::Blocked(BastionError::PrivacyEgressBlocked)
            },
        },
{
    match provider {
        None => SwitchDecision::KeepFailure,
        Some(name) => match check_egress(tier, name) {
            Ok(_) => SwitchDecision::Switch,
            Err(e) => SwitchDecision::Blocked(e),
        },
    }
}

/// Finds the providers of models, and calls them.
pub trait ProviderResolver: Provider {
    /// Whether this may be found, and what finds it is like this afterwards. Who says nothing here
    /// promises nothing.
    open spec fn may_resolve(
        &self,
        model: Seq<char>,
        found: Result<NamedProvider<Self::Handle>, BastionError>,
        after: &Self,
    ) -> bool {
        true
    }

    /// The provider of this model, where it can be had.
    fn resolve(&mut self, model: &str) -> (r: Result<NamedProvider<Self::Handle>, BastionError>)
        ensures
            old(self).may_resolve(model@, r, final(self)),
    ;
}

/// What follows the failure of the active provider: the failure stands where there is no other
/// model to try or its provider cannot be had. Else that provider takes the place of the active
/// one, and what it says is the result, if the data of the turn may go to it. No call is made but
/// these.
pub open spec fn second_rung<R: ProviderResolver>(
    active: NamedProvider<R::Handle>,
    before: R,
    models: Seq<String>,
    messages: &Vec<Message>,
    config: &CallConfig,
    tier: Option<PrivacyTier>,
    failure: BastionError,
    now_active: NamedProvider<R::Handle>,
    after: R,
    r: Result<LlmResponse, BastionError>,
) -> bool {
    if forall|i: int| 0 <= i < models.len() ==> #[trigger] models[i]@ == active.model@ {
        &&& now_active == active
        &&& after == before
        &&& r == Err::<LlmResponse, BastionError>(failure)
    } else {
        exists|i: int, found: Result<NamedProvider<R::Handle>, BastionError>, between: R|
            {
                &&& first_other(models, active.model@, i)
                &&& #[trigger] before.may_resolve(models[i]@, found, &between)
                &&& match found {
                    Err(_) => {
                        &&& now_active == active
                        &&& after == between
                        &&& r == Err::<LlmResponse, BastionError>(failure)
                    },
                    Ok(other) => if may_leave(tier, other.name@) {
                        &&& now_active == other
                        &&& between.may_complete(&other.handle, messages, config, r, &after)
                    } else {
                        &&& now_active == active
                        &&& after == between
                        &&& r == Err::<LlmResponse, BastionError>(
                            BastionError::PrivacyEgressBlocked,
                        )
                    },
                }
            }
    }
}

/// What the ladder comes to: the active provider is asked, and where it fails the second rung
/// follows. No call is made but these.
pub open spec fn climbed<R: ProviderResolver>(
    active: NamedProvider<R::Handle>,
    before: R,
    models: Seq<String>,
    messages: &Vec<Message>,
    config: &CallConfig,
    tier: Option<PrivacyTier>,
    now_active: NamedProvider<R::Handle>,
    after: R,
    r: Result<LlmResponse, BastionError>,
) -> bool {
    exists|first: Result<LlmResponse, BastionError>, asked: R|
        {
            &&& #[trigger] before.may_complete(&active.handle, messages, config, first, &asked)
            &&& match first {
                Ok(_) => r == first && now_active == active && after == asked,
                Err(failure) => second_rung(
                    active,
                    asked,
                    models,
                    messages,
                    config,
                    tier,
                    failure,
                    now_active,
                    after,
                    r,
                ),
            }
        }
}

/// Asks the active provider, and where that fails for good another one, which then takes its
/// place. That happens only where there is another model to try and the data of the turn may go
/// to its provider, which is not asked before that.
pub fn complete_with_fallback_ladder<R: ProviderResolver>(
    active: &mut NamedProvider<R::Handle>,
    models: &Vec<String>,
    providers: &mut R,
    messages: &Vec<Message>,
    config: &CallConfig,
    tier: Option<PrivacyTier>,
) -> (r: Result<LlmResponse, BastionError>)
    ensures
        *final(active) == *old(active) || may_leave(tier, final(active).name@),
        climbed(
            *old(active),
            *old(providers),
            models@,
            messages,
            config,
            tier,
            *final(active),
            *final(providers),
            r,
        ),
{
    let first: Result<LlmResponse, BastionError> = providers.complete(
        &active.handle,
        messages,
        config,
    );
    let ghost asked = *providers;
    assert(old(providers).may_complete(&old(active).handle, messages, config, first, &asked));
    let failure: BastionError = match first {
        Ok(response) => {
            return Ok(response);
        },
        Err(e) => e,
    };
    let model: &str = match fallback_candidate(models, active.model.as_str()) {
        Some(model) => model,
        None => {
            return Err(failure);
        },
    };
    let ghost i = choose|i: int|
        first_other(models@, active.model@, i) && model@ == #[trigger] models@[i]@;
    let resolved: Result<NamedProvider<R::Handle>, BastionError> = providers.resolve(model);
    assert(asked.may_resolve(models@[i]@, resolved, providers));
    let found: NamedProvider<R::Handle> = match resolved {
        Ok(found) => found,
        Err(_) => {
            return Err(failure);
        },
    };
    match decide_switch(Some(found.name.as_str()), tier) {
        SwitchDecision::KeepFailure => Err(failure),
        SwitchDecision::Blocked(e) => Err(e),
        SwitchDecision::Switch => {
            *active = found;
            providers.complete(&active.handle, messages, config)
        },
    }
}

/// No provider is asked but the active one, once, and then at most the one that takes its place,
/// once; and that one only where the data of the turn may go to it. A provider to which the data
/// may not go is never asked.
pub proof fn a_blocked_provider_is_never_asked<R: ProviderResolver>(
    active: NamedProvider<R::Handle>,
    before: R,
    models: Seq<String>,
    messages: &Vec<Message>,
    config: &CallConfig,
    tier: Option<PrivacyTier>,
    now_active: NamedProvider<R::Handle>,
    after: R,
    r: Result<LlmResponse, BastionError>,
    asked: spec_fn(R) -> Seq<R::Handle>,
)
    requires
        climbed(active, before, models, messages, config, tier, now_active, after, r),
        forall|
            p: R,
            model: &R::Handle,
            m: &Vec<Message>,
            c: &CallConfig,
            said: Result<LlmResponse, BastionError>,
            then: R,
        | #[trigger]
            p.may_complete(model, m, c, said, &then) ==> asked(then) == asked(p).push(*model),
        forall|
            p: R,
            model: Seq<char>,
            found: Result<NamedProvider<R::Handle>, BastionError>,
            then: R,
        | #[trigger]
            p.may_resolve(model, found, &then) ==> asked(then) == asked(p),
    ensures
        ({
            let once = asked(before).push(active.handle);
            ||| asked(after) == once && now_active == active
            ||| asked(after) == once.push(now_active.handle) && may_leave(tier, now_active.name@)
        }),
{
}

/// The model to try is the same however often it is looked for, and without another model on the
/// list there is none.
pub proof fn the_model_to_try_is_determined(
    models: Seq<String>,
    current: Seq<char>,
    i: int,
    j: int,
)
    requires
        first_other(models, current, i),
        first_other(models, current, j),
    ensures
        i == j,
{
    if i < j {
        assert(models[i]@ == current);
    } else if j < i {
        assert(models[j]@ == current);
    }
}

/// The model to try is another one than that which failed, and none before it on the list is.
pub proof fn the_model_to_try_is_another(models: Seq<String>, current: Seq<char>, i: int)
    requires
        first_other(models, current, i),
    ensures
        0 <= i < models.len(),
        models[i]@ != current,
        forall|j: int| 0 <= j < i ==> #[trigger] models[j]@ == current,
{
}

/// A provider that answers stays, and what it says is the result; where it fails and there is no
/// other model on the list, or none can be had, it stays and its failure is the result.
pub proof fn a_provider_is_left_only_for_another_model<R: ProviderResolver>(
    active: NamedProvider<R::Handle>,
    before: R,
    models: Seq<String>,
    messages: &Vec<Message>,
    config: &CallConfig,
    tier: Option<PrivacyTier>,
    now_active: NamedProvider<R::Handle>,
    after: R,
    r: Result<LlmResponse, BastionError>,
)
    requires
        climbed(active, before, models, messages, config, tier, now_active, after, r),
    ensures
        (forall|said: Result<LlmResponse, BastionError>, then: R| #[trigger]
            before.may_complete(&active.handle, messages, config, said, &then) ==> said is Ok)
            ==> now_active == active && r is Ok && before.may_complete(
            &active.handle,
            messages,
            config,
            r,
            &after,
        ),
        (forall|i: int| 0 <= i < models.len() ==> #[trigger] models[i]@ == active.model@)
            ==> now_active == active && before.may_complete(
            &active.handle,
            messages,
            config,
            r,
            &after,
        ),
        now_active != active ==> {
            &&& may_leave(tier, now_active.name@)
            &&& exists|i: int, asked: R, between: R|
                {
                    &&& 0 <= i < models.len()
                    &&& models[i]@ != active.model@
                    &&& #[trigger] asked.may_resolve(models[i]@, Ok(now_active), &between)
                    &&& between.may_complete(&now_active.handle, messages, config, r, &after)
                }
        },
{
    let (first, asked) = choose|first: Result<LlmResponse, BastionError>, asked: R|
        {
            &&& #[trigger] before.may_complete(&active.handle, messages, config, first, &asked)
            &&& match first {
                Ok(_) => r == first && now_active == active && after == asked,
                Err(failure) => second_rung(
                    active,
                    asked,
                    models,
                    messages,
                    config,
                    tier,
                    failure,
                    now_active,
                    after,
                    r,
                ),
            }
        };
    if now_active != active {
        let (i, found, between) = choose|
            i: int,
            found: Result<NamedProvider<R::Handle>, BastionError>,
            between: R,
        |
            {
                &&& first_other(models, active.model@, i)
                &&& #[trigger] asked.may_resolve(models[i]@, found, &between)
                &&& match found {
                    Err(_) => {
                        &&& now_active == active
                        &&& after == between
                        &&& r == Err::<LlmResponse, BastionError>(first->Err_0)
                    },
                    Ok(other) => if may_leave(tier, other.name@) {
                        &&& now_active == other
                        &&& between.may_complete(&other.handle, messages, config, r, &after)
                    } else {
                        &&& now_active == active
                        &&& after == between
                        &&& r == Err::<LlmResponse, BastionError>(
                            BastionError::PrivacyEgressBlocked,
                        )
                    },
                }
            };
        assert(asked.may_resolve(models[i]@, Ok(now_active), &between));
    }
}

/// The plain call is prepared with the prompt and the tools that were given, and only where the data
/// may go to the provider.
pub proof fn a_plain_call_is_prepared_where_data_may_go(
    system_prompt: String,
    tools: Vec<serde_json::Value>,
    provider_name: &str,
    tier: Option<PrivacyTier>,
    r: Result<CallConfig, BastionError>,
)
    requires
        call_ensures(fallback_config, (system_prompt, tools, provider_name, tier), r),
    ensures
        r is Ok <==> may_leave(tier, provider_name@),
        r matches Ok(config) ==> config.system_prompt == system_prompt && config.tools == tools
            && config.max_tokens == 4096 && config.tool_choice is None && config.response_format
            is None,
        r matches Err(e) ==> e == BastionError::PrivacyEgressBlocked,
{
}

/// A model that cannot be had keeps the failure, one to which the data may not go is refused, and
/// any other is switched to.
pub proof fn a_switch_waits_for_clearance(
    provider: Option<&str>,
    tier: Option<PrivacyTier>,
    r: SwitchDecision,
)
    requires
        call_ensures(decide_switch, (provider, tier), r),
    ensures
        r is KeepFailure <==> provider is None,
        r is Switch <==> (provider matches Some(name) && may_leave(tier, name@)),
        r is Blocked <==> (provider matches Some(name) && !may_leave(tier, name@)),
{
}

} // verus!
