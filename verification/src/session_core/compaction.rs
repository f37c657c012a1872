//! Which compaction policy a model gets.
use vstd::prelude::*;
use vstd::string::*;
use crate::session_protocol::{copy_text, usage_of, ContextUsage};
use crate::text::{decimal, decimal_string};

verus! {

broadcast use vstd::string::group_string_axioms;

/// When and how a conversation is compacted. The water marks are fractions of
/// the budget; nothing here computes with them.
#[derive(Debug, PartialEq, Eq)]
pub struct CompactionPolicy<W> {
    pub high_water: W,
    pub low_water: W,
    pub context_window: u64,
    pub output_reservation: u64,
    pub summary_model: Option<String>,
    pub summary_prompt: Option<String>,
}

impl<W: Copy> Clone for CompactionPolicy<W> {
    fn clone(&self) -> (copy: Self)
        ensures
            copy == *self,
    {
        CompactionPolicy {
            high_water: self.high_water,
            low_water: self.low_water,
            context_window: self.context_window,
            output_reservation: self.output_reservation,
            summary_model: copy_text(&self.summary_model),
            summary_prompt: copy_text(&self.summary_prompt),
        }
    }
}

/// Compaction policy plus whether its context window follows the active model.
#[derive(Debug, PartialEq, Eq)]
pub struct SessionCompaction<W> {
    pub policy: Option<CompactionPolicy<W>>,
    pub follows_model_window: bool,
}

/// Why a model gets no policy although one is configured.
pub enum PolicyError {
    WindowUnknown,
    ReservationTooLarge { reservation: u64, window: u64 },
}

pub open spec fn policy_error_text(error: PolicyError, model: Seq<char>) -> Seq<char> {
    match error {
        PolicyError::WindowUnknown => "could not determine the context window for model '"@ + model
            + "' from the provider"@,
        PolicyError::ReservationTooLarge { reservation, window } =>
            "DAIMONOS_AGENT_OUTPUT_RESERVATION ("@ + decimal(reservation as nat)
            + ") must be smaller than the provider-reported context window ("@ + decimal(
            window as nat,
        ) + ") for model '"@ + model + "'"@,
    }
}

impl<W> SessionCompaction<W> {
    /// The policy for a model: none where none is configured, the configured
    /// one where its window is fixed, and one with the model's window otherwise.
    pub open spec fn resolved(self, context_window: Option<u64>) -> Result<
        Option<CompactionPolicy<W>>,
        PolicyError,
    > {
        match self.policy {
            None => Ok(None),
            Some(policy) => if !self.follows_model_window {
                Ok(Some(policy))
            } else {
                match context_window {
                    None => Err(PolicyError::WindowUnknown),
                    Some(window) => if policy.output_reservation >= window {
                        Err(
                            PolicyError::ReservationTooLarge {
                                reservation: policy.output_reservation,
                                window,
                            },
                        )
                    } else {
                        Ok(Some(CompactionPolicy { context_window: window, ..policy }))
                    },
                }
            },
        }
    }

    pub fn new(policy: Option<CompactionPolicy<W>>, follows_model_window: bool) -> (compaction: Self)
        ensures
            compaction.policy == policy,
            compaction.follows_model_window == follows_model_window,
    {
        SessionCompaction { policy, follows_model_window }
    }

    /// The window that a model's usage is measured against: its own, or the
    /// configured one where that is fixed.
    pub open spec fn window_for(self, context_window: Option<u64>) -> Option<u64> {
        match context_window {
            Some(window) => Some(window),
            None => match self.policy {
                Some(policy) if !self.follows_model_window => Some(policy.context_window),
                _ => None,
            },
        }
    }

    /// The usage report for some tokens in use. The reservation and the
    /// high-water mark apply only where a policy does.
    pub open spec fn usage_for(
        self,
        used_tokens: u64,
        context_window: Option<u64>,
        high_water_tokens: Option<u64>,
    ) -> ContextUsage {
        match self.resolved(context_window) {
            Ok(Some(policy)) => usage_of(
                used_tokens,
                context_window,
                policy.output_reservation,
                high_water_tokens,
            ),
            _ => usage_of(used_tokens, context_window, 0, None),
        }
    }

    pub fn effective_window(&self, context_window: Option<u64>) -> (window: Option<u64>)
        ensures
            window == self.window_for(context_window),
    {
        match context_window {
            Some(window) => Some(window),
            None => match &self.policy {
                Some(policy) => if !self.follows_model_window {
                    Some(policy.context_window)
                } else {
                    None
                },
                None => None,
            },
        }
    }
}

impl<W: Copy> SessionCompaction<W> {
    pub fn policy_for(&self, model: &str, context_window: Option<u64>) -> (result: Result<
        Option<CompactionPolicy<W>>,
        String,
    >)
        ensures
            match self.resolved(context_window) {
                Ok(policy) => result == Ok::<Option<CompactionPolicy<W>>, String>(policy),
                Err(error) => result matches Err(text) && text@ == policy_error_text(error, model@),
            },
    {
        match &self.policy {
            None => Ok(None),
            Some(policy) => {
                let mut policy = policy.clone();
                if self.follows_model_window {
                    match context_window {
                        None => {
                            let mut text =
                                "could not determine the context window for model '".to_owned();
                            text.append(model);
                            text.append("' from the provider");
                            return Err(text);
                        },
                        Some(window) => {
                            if policy.output_reservation >= window {
                                let mut text = "DAIMONOS_AGENT_OUTPUT_RESERVATION (".to_owned();
                                text.append(decimal_string(policy.output_reservation).as_str());
                                text.append(
                                    ") must be smaller than the provider-reported context window (",
                                );
                                text.append(decimal_string(window).as_str());
                                text.append(") for model '");
                                text.append(model);
                                text.append("'");
                                return Err(text);
                            }
                            policy.context_window = window;
                        },
                    }
                }
                Ok(Some(policy))
            },
        }
    }

    /// The usage to report for a model. `high_water_tokens` is the policy's
    /// mark in tokens.
    pub fn context_usage(
        &self,
        model: &str,
        used_tokens: u64,
        context_window: Option<u64>,
        high_water_tokens: Option<u64>,
    ) -> (usage: ContextUsage)
        ensures
            usage == self.usage_for(used_tokens, context_window, high_water_tokens),
    {
        match self.policy_for(model, context_window) {
            Ok(Some(policy)) => ContextUsage::new(
                used_tokens,
                context_window,
                policy.output_reservation,
                high_water_tokens,
            ),
            _ => ContextUsage::new(used_tokens, context_window, 0, None),
        }
    }
}

/// A policy with a fixed window stays as it was configured, whatever the model.
/// One that follows the model gets the model's window and keeps the rest; it
/// needs a window that is known and larger than what it reserves.
pub proof fn law_policy_follows_the_model<W>(
    config: SessionCompaction<W>,
    context_window: Option<u64>,
)
    ensures
        config.policy is None ==> config.resolved(context_window) == Ok::<
            Option<CompactionPolicy<W>>,
            PolicyError,
        >(None),
        config.policy matches Some(policy) ==> {
            let result = config.resolved(context_window);
            &&& !config.follows_model_window ==> result == Ok::<_, PolicyError>(Some(policy))
            &&& config.follows_model_window ==> match context_window {
                None => result == Err::<Option<CompactionPolicy<W>>, _>(PolicyError::WindowUnknown),
                Some(window) => if window > policy.output_reservation {
                    result matches Ok(Some(got)) && got.context_window == window
                        && got.output_reservation == policy.output_reservation && got.high_water
                        == policy.high_water && got.low_water == policy.low_water
                        && got.summary_model == policy.summary_model && got.summary_prompt
                        == policy.summary_prompt
                } else {
                    result matches Err(PolicyError::ReservationTooLarge {
                        reservation,
                        window: had,
                    }) && reservation == policy.output_reservation && had == window
                },
            }
        },
{
}

/// Usage is measured against the model's window where it is known, else against
/// a fixed one, else against none.
pub proof fn law_usage_is_measured_against_the_window<W>(
    config: SessionCompaction<W>,
    context_window: Option<u64>,
)
    ensures
        context_window is Some ==> config.window_for(context_window) == context_window,
        context_window is None ==> match config.policy {
            Some(policy) => if config.follows_model_window {
                config.window_for(context_window) is None
            } else {
                config.window_for(context_window) == Some(policy.context_window)
            },
            None => config.window_for(context_window) is None,
        },
{
}

/// A usage report tells the tokens and the window it was made for. What is
/// reserved and where compaction starts counts only under a policy.
pub proof fn law_usage_is_reported_under_the_policy<W>(
    config: SessionCompaction<W>,
    used_tokens: u64,
    context_window: Option<u64>,
    high_water_tokens: Option<u64>,
)
    ensures
        ({
            let usage = config.usage_for(used_tokens, context_window, high_water_tokens);
            let governed = config.resolved(context_window) matches Ok(Some(_));
            &&& usage.prompt_tokens == used_tokens
            &&& usage.model_context_window == context_window
            &&& governed ==> usage.output_reservation == config.policy->0.output_reservation
                && usage.compaction_high_water_tokens == high_water_tokens
            &&& !governed ==> usage.output_reservation == 0
                && usage.compaction_high_water_tokens is None
        }),
{
}

} // verus!
