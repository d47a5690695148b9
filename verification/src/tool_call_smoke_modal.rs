//! What a user is shown while a model's tool calls are tried out.
use crate::text::{contains, contains_str};
use crate::tool_call_smoke::{outcome_lines, ToolCallSmokeReport};
use vstd::prelude::*;

verus! {

#[derive(Clone, Copy, Debug, PartialEq, Eq, Structural)]
pub enum ToolCallSmokeModalPhase {
    Running,
    Complete,
    Failed,
}

#[derive(Clone, Copy, Debug, PartialEq, Eq, Structural)]
pub enum Severity {
    Info,
    Success,
    Warning,
    Error,
}

pub struct ToolCallSmokeModal {
    pub model_label: String,
    pub phase: ToolCallSmokeModalPhase,
    pub passed: Option<bool>,
    pub log: String,
}

pub const KEY_HINT: &'static str =
    "\n\nHint: Re-open Configure Network Agent, save again, and ensure LEAD was rebuilt from the latest source.";

/// What is suggested where a run failed for want of a key.
pub open spec fn hint(error: Seq<char>) -> Seq<char> {
    if contains(error, "No API key"@) || contains(error, "NoApiKey"@) {
        KEY_HINT@
    } else {
        ""@
    }
}

/// The texts of the window.
pub struct ToolCallSmokeTexts {
    pub headline: &'static str,
    pub description: &'static str,
    pub banner: &'static str,
    pub severity: Severity,
    pub button: &'static str,
}

impl ToolCallSmokeModal {
    /// A run that has just begun.
    pub fn new(provider_id: &str, model_id: &str) -> (r: Self)
        ensures
            r.model_label@ == provider_id@ + "/"@ + model_id@,
            r.phase == ToolCallSmokeModalPhase::Running,
            r.passed is None,
            r.log@ == "Model: "@ + r.model_label@ + "\n\nRunning tool-call smoke test…\n"@,
    {
        let mut model_label = provider_id.to_string();
        model_label.append("/");
        model_label.append(model_id);
        let mut log = "Model: ".to_string();
        log.append(model_label.as_str());
        log.append("\n\nRunning tool-call smoke test…\n");
        ToolCallSmokeModal {
            model_label,
            phase: ToolCallSmokeModalPhase::Running,
            passed: None,
            log,
        }
    }

    /// Takes in what the run came to: a report, or the error that ended it.
    pub fn finish(&mut self, outcome: &Result<ToolCallSmokeReport, String>)
        ensures
            final(self).model_label == old(self).model_label,
            match *outcome {
                Ok(report) => {
                    &&& final(self).phase == ToolCallSmokeModalPhase::Complete
                    &&& final(self).passed == Some(
                        forall|i: int|
                            0 <= i < report.results@.len() ==> (
                            #[trigger] report.results@[i]).is_pass(),
                    )
                    &&& final(self).log@ == "Model: "@ + report.model_label@ + "\n"@
                        + outcome_lines(report.results@) + report.verdict()
                },
                Err(error) => {
                    &&& final(self).phase == ToolCallSmokeModalPhase::Failed
                    &&& final(self).passed is None
                    &&& final(self).log@ == "Model: "@ + old(self).model_label@ + "\n\nError: "@
                        + error@ + hint(error@)
                },
            },
    {
        match outcome {
            Ok(report) => {
                self.passed = Some(report.passed());
                self.log = report.summary();
                self.phase = ToolCallSmokeModalPhase::Complete;
            },
            Err(error) => {
                let mut log = "Model: ".to_string();
                log.append(self.model_label.as_str());
                log.append("\n\nError: ");
                log.append(error.as_str());
                if contains_str(error.as_str(), "No API key") || contains_str(
                    error.as_str(),
                    "NoApiKey",
                ) {
                    log.append(KEY_HINT);
                } else {
                    log.append("");
                }
                self.passed = None;
                self.log = log;
                self.phase = ToolCallSmokeModalPhase::Failed;
            },
        }
    }

    pub open spec fn headline_of(&self) -> Seq<char> {
        match self.phase {
            ToolCallSmokeModalPhase::Running => "Testing Tool Calling"@,
            ToolCallSmokeModalPhase::Complete => if self.passed == Some(true) {
                "Tool Calling Test Passed"@
            } else {
                "Tool Calling Test Failed"@
            },
            ToolCallSmokeModalPhase::Failed => "Tool Calling Test Error"@,
        }
    }

    pub open spec fn description_of(&self) -> Seq<char> {
        match self.phase {
            ToolCallSmokeModalPhase::Running =>
                "Sending short prompts that should trigger built-in tools. This can take a few minutes on local models."@,
            ToolCallSmokeModalPhase::Complete => if self.passed == Some(true) {
                "This model returned valid tool calls for all smoke scenarios."@
            } else {
                "This model missed or malformed one or more expected tool calls."@
            },
            ToolCallSmokeModalPhase::Failed =>
                "The smoke test could not finish. Check that the model server is running."@,
        }
    }

    pub open spec fn severity_of(&self) -> Severity {
        match self.phase {
            ToolCallSmokeModalPhase::Running => Severity::Info,
            ToolCallSmokeModalPhase::Complete => if self.passed == Some(true) {
                Severity::Success
            } else {
                Severity::Warning
            },
            ToolCallSmokeModalPhase::Failed => Severity::Error,
        }
    }

    pub open spec fn banner_of(severity: Severity) -> Seq<char> {
        match severity {
            Severity::Info => "Running smoke cases…"@,
            Severity::Success => "All smoke cases passed."@,
            Severity::Warning => "One or more smoke cases failed."@,
            Severity::Error => "The smoke test failed to run."@,
        }
    }

    pub fn texts(&self) -> (r: ToolCallSmokeTexts)
        ensures
            r.headline@ == self.headline_of(),
            r.description@ == self.description_of(),
            r.severity == self.severity_of(),
            r.banner@ == Self::banner_of(self.severity_of()),
            r.button@ == (if self.phase == ToolCallSmokeModalPhase::Running {
                "Cancel"@
            } else {
                "Close"@
            }),
    {
        let passed = match self.passed {
            Some(passed) => passed,
            None => false,
        };
        match self.phase {
            ToolCallSmokeModalPhase::Running => ToolCallSmokeTexts {
                headline: "Testing Tool Calling",
                description: "Sending short prompts that should trigger built-in tools. This can take a few minutes on local models.",
                banner: "Running smoke cases…",
                severity: Severity::Info,
                button: "Cancel",
            },
            ToolCallSmokeModalPhase::Complete => if passed {
                ToolCallSmokeTexts {
                    headline: "Tool Calling Test Passed",
                    description: "This model returned valid tool calls for all smoke scenarios.",
                    banner: "All smoke cases passed.",
                    severity: Severity::Success,
                    button: "Close",
                }
            } else {
                ToolCallSmokeTexts {
                    headline: "Tool Calling Test Failed",
                    description: "This model missed or malformed one or more expected tool calls.",
                    banner: "One or more smoke cases failed.",
                    severity: Severity::Warning,
                    button: "Close",
                }
            },
            ToolCallSmokeModalPhase::Failed => ToolCallSmokeTexts {
                headline: "Tool Calling Test Error",
                description: "The smoke test could not finish. Check that the model server is running.",
                banner: "The smoke test failed to run.",
                severity: Severity::Error,
                button: "Close",
            },
        }
    }
}

} // verus!
