//! The step factory: maps a step definition to a freshly built step, its
//! initial futures and its endpoint registrations.  Each step type is
//! registered under its type name at startup.

use vstd::prelude::*;
use crate::collections::StrMap;
use crate::definitions::WorkflowStepDefinition;
use crate::definitions::WorkflowStepType;
use crate::endpoints::RtmpEndpointRequest;
use crate::steps::FutureSpec;
use crate::steps::Step;
use crate::steps::StepStartupError;
use crate::steps::rtmp_receive::RtmpReceiverStepGenerator;
use crate::steps::rtmp_receive::receive_generated;
use crate::steps::rtmp_receive::spec_receive_generate;
use crate::steps::rtmp_watch::RtmpWatchStep;
use crate::steps::rtmp_watch::watch_generated;
use crate::steps::rtmp_watch::spec_watch_generate;

verus! {

/// A registered way of building one step type.
pub enum StepGeneratorKind {
    RtmpReceive(RtmpReceiverStepGenerator),
    RtmpWatch,
}

/// The factory could not even try to build the step.
pub enum FactoryError {
    NoRegisteredStep(String),
}

/// Everything a fresh step comes with.
pub struct WorkflowStepFactory {
    generators: StrMap<StepGeneratorKind>,
}

impl WorkflowStepFactory {
    pub closed spec fn wf(&self) -> bool {
        self.generators.wf()
    }

    /// Which generator, if any, a step type name is registered to.
    pub closed spec fn spec_generators(&self) -> Map<Seq<char>, StepGeneratorKind> {
        self.generators@
    }

    pub fn new() -> (r: Self)
        ensures
            r.wf(),
            r.spec_generators() == Map::<Seq<char>, StepGeneratorKind>::empty(),
    {
        WorkflowStepFactory { generators: StrMap::new() }
    }

    /// Register a generator for a step type name; a later registration for
    /// the same name replaces the earlier one.
    pub fn register_step(&mut self, step_type: WorkflowStepType, generator: StepGeneratorKind)
        requires
            old(self).wf(),
        ensures
            final(self).wf(),
            final(self).spec_generators() == old(self).spec_generators().insert(
                step_type.0@,
                generator,
            ),
    {
        self.generators.insert(step_type.0, generator);
    }

    /// Build the step a definition asks for.  The outer error means no
    /// generator is registered for the step type; the inner one that the
    /// generator rejected the parameters.
    pub fn create_step(&self, definition: WorkflowStepDefinition) -> (r: Result<
        Result<(Step, Vec<FutureSpec>, Vec<RtmpEndpointRequest>), StepStartupError>,
        FactoryError,
    >)
        requires
            self.wf(),
            definition.wf(),
        ensures
            ({
                let ty = definition.step_type.0@;
                let pm = crate::config::omap_view(definition.parameters@);
                match r {
                    Err(e) => !self.spec_generators().contains_key(ty) && (match e {
                        FactoryError::NoRegisteredStep(n) => n@ == ty,
                    }),
                    Ok(inner) => self.spec_generators().contains_key(ty) && (match self.spec_generators()[ty] {
                        StepGeneratorKind::RtmpReceive(_) => match inner {
                            Ok(t) => receive_generated(definition, t),
                            Err(e) => spec_receive_generate(pm) == Err::<
                                crate::steps::CommonModel,
                                crate::steps::StartupErrorModel,
                            >(e@),
                        },
                        StepGeneratorKind::RtmpWatch => match inner {
                            Ok(t) => watch_generated(definition, t),
                            Err(e) => spec_watch_generate(pm) == Err::<
                                crate::steps::CommonModel,
                                crate::steps::StartupErrorModel,
                            >(e@),
                        },
                    }),
                }
            }),
    {
        match self.generators.get(definition.step_type.0.as_str()) {
            None => Err(FactoryError::NoRegisteredStep(definition.step_type.0.clone())),
            Some(generator) => match generator {
                StepGeneratorKind::RtmpReceive(g) => Ok(g.generate(definition)),
                StepGeneratorKind::RtmpWatch => Ok(RtmpWatchStep::new(definition)),
            },
        }
    }
}

} // verus!
