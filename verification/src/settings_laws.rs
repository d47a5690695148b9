//! What settings come to: nothing that is given is lost.
use crate::agent_settings::{
    complete_endpoints, enabled_endpoints, temperature_for, NetworkAgentWorkerEndpoint,
};
use crate::selection::{are_the_wanted, lemma_none_of_none, lemma_one_more};
use crate::settings_content::{
    without_model, LanguageModelParameters, LanguageModelProviderSetting, LanguageModelSelection,
    NetworkAgentWorkerEndpointContent, ToolRegexRule,
};
use crate::text::trim;
use crate::tool_permissions::{
    all_invalid, rule_problem, unusable, usable, ToolRules,
};
use vstd::prelude::*;

verus! {

pub open spec fn is_enabled() -> spec_fn(NetworkAgentWorkerEndpoint) -> bool {
    |e: NetworkAgentWorkerEndpoint| e.enabled
}

pub open spec fn endpoint_itself() -> spec_fn(
    NetworkAgentWorkerEndpoint,
) -> NetworkAgentWorkerEndpoint {
    |e: NetworkAgentWorkerEndpoint| e
}

/// Every endpoint that is enabled is used, in its order, and no other.
pub proof fn lemma_every_enabled_endpoint_is_used(endpoints: Seq<NetworkAgentWorkerEndpoint>)
    ensures
        are_the_wanted(enabled_endpoints(endpoints), endpoints, is_enabled(), endpoint_itself()),
    decreases endpoints.len(),
{
    let wanted = is_enabled();
    let of = endpoint_itself();
    if endpoints.len() == 0 {
        lemma_none_of_none(wanted, of);
        assert(endpoints =~= Seq::empty());
    } else {
        let before = endpoints.drop_last();
        lemma_every_enabled_endpoint_is_used(before);
        lemma_one_more(enabled_endpoints(before), before, wanted, of, endpoints.last());
        assert(before.push(endpoints.last()) =~= endpoints);
    }
}

/// Endpoints with a name, a provider and a model.
pub open spec fn says_what_it_is() -> spec_fn(NetworkAgentWorkerEndpointContent) -> bool {
    |e: NetworkAgentWorkerEndpointContent|
        {
            &&& e.id matches Some(id) && trim(id@).len() > 0
            &&& e.provider matches Some(p) && trim(p@).len() > 0
            &&& e.model matches Some(m) && trim(m@).len() > 0
        }
}

/// What becomes of an endpoint: it takes one task at least, and is enabled unless that is denied.
pub open spec fn settled_endpoint() -> spec_fn(
    NetworkAgentWorkerEndpointContent,
) -> NetworkAgentWorkerEndpoint {
    |e: NetworkAgentWorkerEndpointContent|
        NetworkAgentWorkerEndpoint {
            id: e.id->0,
            provider: LanguageModelProviderSetting(e.provider->0),
            model: e.model->0,
            max_concurrent: if e.max_concurrent is Some && e.max_concurrent->0 > 1 {
                e.max_concurrent->0
            } else {
                1
            },
            enabled: e.enabled is None || e.enabled->0,
        }
}

/// Every endpoint that says what it is is kept, in its order.
pub proof fn lemma_every_complete_endpoint_is_kept(endpoints: Seq<NetworkAgentWorkerEndpointContent>)
    ensures
        are_the_wanted(complete_endpoints(endpoints), endpoints, says_what_it_is(), settled_endpoint()),
    decreases endpoints.len(),
{
    let wanted = says_what_it_is();
    let of = settled_endpoint();
    if endpoints.len() == 0 {
        lemma_none_of_none(wanted, of);
        assert(endpoints =~= Seq::empty());
    } else {
        let before = endpoints.drop_last();
        lemma_every_complete_endpoint_is_kept(before);
        lemma_one_more(complete_endpoints(before), before, wanted, of, endpoints.last());
        assert(before.push(endpoints.last()) =~= endpoints);
    }
}

/// Whether parameters hold for a model: they name it, or leave open what they do not name.
pub open spec fn hold_for(
    p: LanguageModelParameters,
    provider: Seq<char>,
    model: Seq<char>,
) -> bool {
    (p.provider is None || (p.provider->0).0@ == provider) && (p.model is None || p.model->0@ == model)
}

/// The temperature for a model is the one in the last parameters that hold for it.
pub proof fn lemma_last_parameters_decide(
    parameters: Seq<LanguageModelParameters>,
    provider: Seq<char>,
    model: Seq<char>,
    i: int,
)
    requires
        0 <= i < parameters.len(),
        hold_for(parameters[i], provider, model),
        forall|j: int|
            i < j < parameters.len() ==> !hold_for(#[trigger] parameters[j], provider, model),
    ensures
        temperature_for(parameters, provider, model) == parameters[i].temperature,
    decreases parameters.len(),
{
    if i < parameters.len() - 1 {
        assert(!hold_for(parameters[parameters.len() - 1], provider, model));
        let before = parameters.drop_last();
        assert forall|j: int| i < j < before.len() implies !hold_for(
            #[trigger] before[j],
            provider,
            model,
        ) by {
            assert(before[j] == parameters[j]);
        }
        lemma_last_parameters_decide(before, provider, model, i);
    }
}

/// Where no parameters hold for a model it has no temperature of its own.
pub proof fn lemma_no_parameters_decide_nothing(
    parameters: Seq<LanguageModelParameters>,
    provider: Seq<char>,
    model: Seq<char>,
)
    requires
        forall|j: int|
            0 <= j < parameters.len() ==> !hold_for(#[trigger] parameters[j], provider, model),
    ensures
        temperature_for(parameters, provider, model) is None,
    decreases parameters.len(),
{
    if parameters.len() > 0 {
        assert(!hold_for(parameters[parameters.len() - 1], provider, model));
        let before = parameters.drop_last();
        assert forall|j: int| 0 <= j < before.len() implies !hold_for(
            #[trigger] before[j],
            provider,
            model,
        ) by {
            assert(before[j] == parameters[j]);
        }
        lemma_no_parameters_decide_nothing(before, provider, model);
    }
}

pub open spec fn is_another(provider: Seq<char>, model: Seq<char>) -> spec_fn(
    LanguageModelSelection,
) -> bool {
    |m: LanguageModelSelection| m.provider.0@ != provider || m.model@ != model
}

pub open spec fn model_itself() -> spec_fn(LanguageModelSelection) -> LanguageModelSelection {
    |m: LanguageModelSelection| m
}

/// Removing a model leaves every other one, in its order.
pub proof fn lemma_other_models_stay(models: Seq<LanguageModelSelection>, provider: Seq<char>, model: Seq<char>)
    ensures
        are_the_wanted(without_model(models, provider, model), models, is_another(provider, model), model_itself()),
    decreases models.len(),
{
    let wanted = is_another(provider, model);
    let of = model_itself();
    if models.len() == 0 {
        lemma_none_of_none(wanted, of);
        assert(models =~= Seq::empty());
    } else {
        let before = models.drop_last();
        lemma_other_models_stay(before, provider, model);
        lemma_one_more(without_model(before, provider, model), before, wanted, of, models.last());
        assert(before.push(models.last()) =~= models);
    }
}

pub open spec fn is_sound_rule() -> spec_fn(ToolRegexRule) -> bool {
    |r: ToolRegexRule|
        r.pattern@.len() > 0 && crate::security_rules::regex_error(
            r.pattern@,
            r.case_sensitive != Some(true),
        ) is None
}

pub open spec fn rule_as_used() -> spec_fn(ToolRegexRule) -> (Seq<char>, bool) {
    |r: ToolRegexRule| (r.pattern@, r.case_sensitive == Some(true))
}

/// Every rule with a pattern that can be read is used, in its order, and no other.
pub proof fn lemma_every_sound_rule_is_used(rules: Seq<ToolRegexRule>)
    ensures
        are_the_wanted(usable(rules), rules, is_sound_rule(), rule_as_used()),
    decreases rules.len(),
{
    let wanted = is_sound_rule();
    let of = rule_as_used();
    if rules.len() == 0 {
        lemma_none_of_none(wanted, of);
        assert(rules =~= Seq::empty());
    } else {
        let before = rules.drop_last();
        lemma_every_sound_rule_is_used(before);
        lemma_one_more(usable(before), before, wanted, of, rules.last());
        assert(before.push(rules.last()) =~= rules);
    }
}

pub open spec fn is_unsound_rule() -> spec_fn(ToolRegexRule) -> bool {
    |r: ToolRegexRule| !is_sound_rule()(r)
}

pub open spec fn rule_as_reported(rule_type: Seq<char>) -> spec_fn(ToolRegexRule) -> (
    Seq<char>,
    Seq<char>,
    Seq<char>,
) {
    |r: ToolRegexRule| (r.pattern@, rule_type, rule_problem(r)->0)
}

/// Every rule that is not used is reported with its pattern, its list and what is wrong with it.
pub proof fn lemma_every_unsound_rule_is_reported(rules: Seq<ToolRegexRule>, rule_type: Seq<char>)
    ensures
        are_the_wanted(unusable(rules, rule_type), rules, is_unsound_rule(), rule_as_reported(rule_type)),
    decreases rules.len(),
{
    let wanted = is_unsound_rule();
    let of = rule_as_reported(rule_type);
    if rules.len() == 0 {
        lemma_none_of_none(wanted, of);
        assert(rules =~= Seq::empty());
    } else {
        let before = rules.drop_last();
        lemma_every_unsound_rule_is_reported(before, rule_type);
        lemma_one_more(unusable(before, rule_type), before, wanted, of, rules.last());
        assert(before.push(rules.last()) =~= rules);
    }
}

/// What is wrong in the rules of any tool is among all that is wrong.
pub proof fn lemma_invalid_patterns_of_every_tool(
    tools: Seq<(String, ToolRules)>,
    i: int,
    k: int,
)
    requires
        0 <= i < tools.len(),
        0 <= k < tools[i].1.invalid_patterns@.len(),
    ensures
        all_invalid(tools).contains(tools[i].1.invalid_patterns@[k]),
    decreases tools.len(),
{
    let before = all_invalid(tools.drop_last());
    let all = all_invalid(tools);
    let p = tools[i].1.invalid_patterns@[k];
    if i < tools.len() - 1 {
        lemma_invalid_patterns_of_every_tool(tools.drop_last(), i, k);
        let j = choose|j: int| 0 <= j < before.len() && before[j] == p;
        assert(all[j] == p);
    } else {
        assert(all[before.len() + k] == p);
    }
}

} // verus!
