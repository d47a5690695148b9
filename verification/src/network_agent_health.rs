//! Whether the two models of the hybrid mode can be reached.
use crate::agent_settings::AgentSettings;
use crate::text::str_eq;
use vstd::prelude::*;

verus! {

#[derive(Clone, Debug, PartialEq, Eq)]
pub enum ModelHealth {
    Unknown,
    Ready,
    Warning(String),
    Unavailable(String),
}

pub ghost enum ModelHealthView {
    Unknown,
    Ready,
    Warning(Seq<char>),
    Unavailable(Seq<char>),
}

impl View for ModelHealth {
    type V = ModelHealthView;

    open spec fn view(&self) -> ModelHealthView {
        match *self {
            ModelHealth::Unknown => ModelHealthView::Unknown,
            ModelHealth::Ready => ModelHealthView::Ready,
            ModelHealth::Warning(m) => ModelHealthView::Warning(m@),
            ModelHealth::Unavailable(m) => ModelHealthView::Unavailable(m@),
        }
    }
}

impl ModelHealth {
    pub fn label(&self) -> (r: &str)
        ensures
            r@ == match self@ {
                ModelHealthView::Unknown => "Unknown"@,
                ModelHealthView::Ready => "Ready"@,
                ModelHealthView::Warning(m) => m,
                ModelHealthView::Unavailable(m) => m,
            },
    {
        match self {
            ModelHealth::Unknown => "Unknown",
            ModelHealth::Ready => "Ready",
            ModelHealth::Warning(message) => message.as_str(),
            ModelHealth::Unavailable(message) => message.as_str(),
        }
    }
}

pub const ORCHESTRATOR_UNAVAILABLE: &'static str =
    "Network orchestrator model not available — check Configure Network Agent";

pub const ORCHESTRATOR_MISSING: &'static str = "Network orchestrator not configured";

pub const WORKER_NOT_LM_STUDIO: &'static str =
    "Local worker is not LM Studio — hybrid mode works best with a local LM Studio model";

pub const WORKER_MISSING: &'static str = "Set agent.default_model to your LM Studio worker model";

pub open spec fn worker_unavailable(provider: Seq<char>, model: Seq<char>) -> Seq<char> {
    "Local worker `"@ + provider + "/"@ + model + "` unavailable — start LM Studio"@
}

/// How the model that drives the agent fares; `resolved` says whether it is registered.
pub open spec fn orchestrator_health(settings: AgentSettings, resolved: bool) -> ModelHealthView {
    if settings.network_active() || settings.default_model is Some {
        if resolved {
            ModelHealthView::Ready
        } else {
            ModelHealthView::Unavailable(ORCHESTRATOR_UNAVAILABLE@)
        }
    } else {
        ModelHealthView::Unavailable(ORCHESTRATOR_MISSING@)
    }
}

/// How the model for delegated work fares; `resolved` says whether it is registered.
pub open spec fn worker_health(settings: AgentSettings, resolved: bool) -> ModelHealthView {
    if !settings.network_active() {
        ModelHealthView::Unknown
    } else {
        match settings.default_model {
            None => ModelHealthView::Unavailable(WORKER_MISSING@),
            Some(m) => if m.provider.0@ != "lmstudio"@ {
                ModelHealthView::Warning(WORKER_NOT_LM_STUDIO@)
            } else if resolved {
                ModelHealthView::Ready
            } else {
                ModelHealthView::Unavailable(worker_unavailable(m.provider.0@, m.model@))
            },
        }
    }
}

/// The health of the orchestrator and of the local worker. The two flags say whether the models
/// that `effective_default_model` and `effective_subagent_model` name are registered.
pub fn check_hybrid_models_in_registry(
    settings: &AgentSettings,
    orchestrator_resolved: bool,
    worker_resolved: bool,
) -> (r: (ModelHealth, ModelHealth))
    ensures
        r.0@ == orchestrator_health(*settings, orchestrator_resolved),
        r.1@ == worker_health(*settings, worker_resolved),
{
    let orchestrator = match settings.effective_default_model() {
        Some(_) => if orchestrator_resolved {
            ModelHealth::Ready
        } else {
            ModelHealth::Unavailable(ORCHESTRATOR_UNAVAILABLE.to_string())
        },
        None => ModelHealth::Unavailable(ORCHESTRATOR_MISSING.to_string()),
    };
    let local = if !settings.network_agent_active() {
        ModelHealth::Unknown
    } else {
        match settings.effective_subagent_model() {
            Some(selection) => if !str_eq(selection.provider.0.as_str(), "lmstudio") {
                ModelHealth::Warning(WORKER_NOT_LM_STUDIO.to_string())
            } else if worker_resolved {
                ModelHealth::Ready
            } else {
                let mut text = "Local worker `".to_string();
                text.append(selection.provider.0.as_str());
                text.append("/");
                text.append(selection.model.as_str());
                text.append("` unavailable — start LM Studio");
                ModelHealth::Unavailable(text)
            },
            None => ModelHealth::Unavailable(WORKER_MISSING.to_string()),
        }
    };
    (orchestrator, local)
}

} // verus!
